//! The stack-machine interpreter: an instruction sequence executes against
//! a value stack and a chain of variable scopes.
//!
//! Variable lookup and re-assignment scan the whole active chain from the
//! innermost scope outward, so a called function can read and mutate its
//! caller's locals unless a closer binding shadows them.  A `Return` stops
//! only the instruction sequence it stands in; an enclosing block resumes
//! after it.  Both behaviours follow the source grammar deliberately.
//!
//! Execution is modelled by the fueled function `run_seq`: fuel is spent
//! when execution enters a nested sequence (a block, a call, an index
//! expression) and on every loop iteration, and `execute_tokens` runs with
//! the largest budget the machine can count.  Native callbacks and module
//! resolution go through the `Host` capability; the model marks any run
//! that reaches the host as host-dependent and promises nothing further
//! about it.
use vstd::prelude::*;

use crate::lexer::Lexer;
use crate::parser::InstrV;
use crate::parser::Parser;
use crate::parser::ParserToken;
use crate::parser::clone_instr_vec;
use crate::parser::instr_views;
use crate::parser::lemma_instr_views;
use crate::parser::str_views;
use crate::strings::str_eq;
use crate::value::Value;
use crate::value::ValueE;
use crate::value::ValueV;
use crate::value::lemma_value_views;
use crate::value::spec_binop;
use crate::value::truthy;
use crate::value::val_chars;
use crate::value::value_view;
use crate::value::value_views;

verus! {

broadcast use vstd::std_specs::vec::group_vec_axioms;

/// A fatal error of the interpreter.  The core never terminates the
/// process; every error path hands one of these to the embedding layer.
#[derive(Debug, PartialEq)]
pub enum RuntimeError {
    StackUnderflow,
    UnboundVariable(String),
    DuplicateBinding(String),
    UnknownFunction(String),
    TypeMismatch,
    UnknownOperation,
    DivisionByZero,
    IndexError,
    NonGlobalFunction(String),
    DuplicateFunction(String),
    ScriptPanic(String),
    ImportError(String),
    NativeError(String),
    RecursionLimit,
    UnsupportedInstruction,
}

/// Model of a runtime error.
pub enum RtV {
    StackUnderflow,
    UnboundVariable(Seq<char>),
    DuplicateBinding(Seq<char>),
    UnknownFunction(Seq<char>),
    TypeMismatch,
    UnknownOperation,
    DivisionByZero,
    IndexError,
    NonGlobalFunction(Seq<char>),
    DuplicateFunction(Seq<char>),
    ScriptPanic(Seq<char>),
    ImportError(Seq<char>),
    NativeError(Seq<char>),
    RecursionLimit,
    UnsupportedInstruction,
}

impl View for RuntimeError {
    type V = RtV;

    open spec fn view(&self) -> RtV {
        match self {
            RuntimeError::StackUnderflow => RtV::StackUnderflow,
            RuntimeError::UnboundVariable(n) => RtV::UnboundVariable(n@),
            RuntimeError::DuplicateBinding(n) => RtV::DuplicateBinding(n@),
            RuntimeError::UnknownFunction(n) => RtV::UnknownFunction(n@),
            RuntimeError::TypeMismatch => RtV::TypeMismatch,
            RuntimeError::UnknownOperation => RtV::UnknownOperation,
            RuntimeError::DivisionByZero => RtV::DivisionByZero,
            RuntimeError::IndexError => RtV::IndexError,
            RuntimeError::NonGlobalFunction(n) => RtV::NonGlobalFunction(n@),
            RuntimeError::DuplicateFunction(n) => RtV::DuplicateFunction(n@),
            RuntimeError::ScriptPanic(m) => RtV::ScriptPanic(m@),
            RuntimeError::ImportError(n) => RtV::ImportError(n@),
            RuntimeError::NativeError(m) => RtV::NativeError(m@),
            RuntimeError::RecursionLimit => RtV::RecursionLimit,
            RuntimeError::UnsupportedInstruction => RtV::UnsupportedInstruction,
        }
    }
}

/// How a `Value` operation error surfaces at run time.
pub open spec fn rt_of_value_err(e: ValueE) -> RtV {
    match e {
        ValueE::TypeMismatch => RtV::TypeMismatch,
        ValueE::UnkownOperation => RtV::UnknownOperation,
        ValueE::DivisionByZero => RtV::DivisionByZero,
        ValueE::ParsingError => RtV::TypeMismatch,
    }
}

fn runtime_of_value_err(e: ValueE) -> (r: RuntimeError)
    ensures
        r@ == rt_of_value_err(e),
{
    match e {
        ValueE::TypeMismatch => RuntimeError::TypeMismatch,
        ValueE::UnkownOperation => RuntimeError::UnknownOperation,
        ValueE::DivisionByZero => RuntimeError::DivisionByZero,
        ValueE::ParsingError => RuntimeError::TypeMismatch,
    }
}

/// A variable frame: a name for diagnostics and its bindings, first bound
/// first.
#[derive(Debug)]
pub struct Scope {
    pub scope_name: String,
    pub variables: Vec<(String, Value)>,
}

/// Model of a frame.
#[verifier::ext_equal]
pub struct ScopeV {
    pub name: Seq<char>,
    pub vars: Seq<(Seq<char>, ValueV)>,
}

/// The model of a binding list is the pointwise model.
pub open spec fn binding_views(s: Seq<(String, Value)>) -> Seq<(Seq<char>, ValueV)>
    decreases s.len(),
{
    if s.len() == 0 {
        Seq::empty()
    } else {
        seq![(s[0].0@, value_view(s[0].1))] + binding_views(s.subrange(1, s.len() as int))
    }
}

pub proof fn lemma_binding_views(s: Seq<(String, Value)>)
    ensures
        binding_views(s).len() == s.len(),
        forall|i: int|
            0 <= i < s.len() ==> binding_views(s)[i] == (s[i].0@, value_view(s[i].1)),
    decreases s.len(),
{
    if s.len() > 0 {
        lemma_binding_views(s.subrange(1, s.len() as int));
    }
}

impl View for Scope {
    type V = ScopeV;

    open spec fn view(&self) -> ScopeV {
        ScopeV { name: self.scope_name@, vars: binding_views(self.variables@) }
    }
}

impl Scope {
    /// A fresh, empty frame.
    pub fn new(scope_name: String) -> (s: Scope)
        ensures
            s@.name == scope_name@,
            s@.vars == Seq::<(Seq<char>, ValueV)>::empty(),
    {
        let s = Scope { scope_name, variables: Vec::new() };
        proof {
            assert(binding_views(s.variables@) =~= Seq::<(Seq<char>, ValueV)>::empty());
        }
        s
    }
}

/// The model of a scope chain is the pointwise model; the innermost frame
/// is last.
pub open spec fn scope_views(s: Seq<Scope>) -> Seq<ScopeV>
    decreases s.len(),
{
    if s.len() == 0 {
        Seq::empty()
    } else {
        seq![s[0]@] + scope_views(s.subrange(1, s.len() as int))
    }
}

pub proof fn lemma_scope_views(s: Seq<Scope>)
    ensures
        scope_views(s).len() == s.len(),
        forall|i: int| 0 <= i < s.len() ==> scope_views(s)[i] == s[i]@,
    decreases s.len(),
{
    if s.len() > 0 {
        lemma_scope_views(s.subrange(1, s.len() as int));
    }
}

/// The model of the function table is the pointwise model.
pub open spec fn func_views(s: Seq<(String, Vec<ParserToken>)>) -> Seq<(Seq<char>, Seq<InstrV>)>
    decreases s.len(),
{
    if s.len() == 0 {
        Seq::empty()
    } else {
        seq![(s[0].0@, instr_views(s[0].1@))] + func_views(s.subrange(1, s.len() as int))
    }
}

pub proof fn lemma_func_views(s: Seq<(String, Vec<ParserToken>)>)
    ensures
        func_views(s).len() == s.len(),
        forall|i: int|
            0 <= i < s.len() ==> func_views(s)[i] == (s[i].0@, instr_views(s[i].1@)),
    decreases s.len(),
{
    if s.len() > 0 {
        lemma_func_views(s.subrange(1, s.len() as int));
    }
}

/// The whole interpreter state as the model sees it: the scope chain
/// (innermost last), the function table, the value stack (top last) and
/// the names already imported.
#[verifier::ext_equal]
pub struct StateV {
    pub scopes: Seq<ScopeV>,
    pub funcs: Seq<(Seq<char>, Seq<InstrV>)>,
    pub stack: Seq<ValueV>,
    pub imports: Seq<Seq<char>>,
}

/// Exactly one persistent global frame always sits at the bottom of the
/// chain.
pub open spec fn st_inv(st: StateV) -> bool {
    st.scopes.len() >= 1
}

// ---------------------------------------------------------------------------
// State operations
// ---------------------------------------------------------------------------
/// Whether a frame binds this name.
pub open spec fn sc_has(vars: Seq<(Seq<char>, ValueV)>, n: Seq<char>) -> bool {
    exists|i: int| 0 <= i < vars.len() && vars[i].0 == n
}

/// The index of the first binding of this name in a frame.
pub open spec fn sc_at(vars: Seq<(Seq<char>, ValueV)>, n: Seq<char>) -> int
    decreases vars.len(),
{
    if vars.len() == 0 {
        0
    } else if vars[0].0 == n {
        0
    } else {
        1 + sc_at(vars.subrange(1, vars.len() as int), n)
    }
}

pub proof fn lemma_sc_at(vars: Seq<(Seq<char>, ValueV)>, n: Seq<char>)
    requires
        sc_has(vars, n),
    ensures
        0 <= sc_at(vars, n) < vars.len(),
        vars[sc_at(vars, n)].0 == n,
        forall|j: int| 0 <= j < sc_at(vars, n) ==> vars[j].0 != n,
    decreases vars.len(),
{
    if vars.len() > 0 && vars[0].0 != n {
        let tail = vars.subrange(1, vars.len() as int);
        assert(sc_has(tail, n)) by {
            let w = choose|i: int| 0 <= i < vars.len() && vars[i].0 == n;
            assert(tail[w - 1].0 == n);
        }
        lemma_sc_at(tail, n);
        assert forall|j: int| 0 <= j < sc_at(vars, n) implies vars[j].0 != n by {
            if j > 0 {
                assert(tail[j - 1].0 != n);
            }
        }
    }
}

/// The value of the first binding of this name in a frame.
pub open spec fn sc_get(vars: Seq<(Seq<char>, ValueV)>, n: Seq<char>) -> ValueV {
    vars[sc_at(vars, n)].1
}

/// The frame with the first binding of this name replaced.
pub open spec fn sc_set(vars: Seq<(Seq<char>, ValueV)>, n: Seq<char>, v: ValueV) -> Seq<
    (Seq<char>, ValueV),
> {
    vars.update(sc_at(vars, n), (n, v))
}

/// The value of a name in the chain, scanning innermost (last) outward.
pub open spec fn chain_lookup(scopes: Seq<ScopeV>, n: Seq<char>) -> Option<ValueV>
    decreases scopes.len(),
{
    if scopes.len() == 0 {
        None
    } else if sc_has(scopes.last().vars, n) {
        Some(sc_get(scopes.last().vars, n))
    } else {
        chain_lookup(scopes.drop_last(), n)
    }
}

/// The chain with the first (innermost) binding of the name replaced, or
/// nothing when the name is bound nowhere.
pub open spec fn chain_store(scopes: Seq<ScopeV>, n: Seq<char>, v: ValueV) -> Option<Seq<ScopeV>>
    decreases scopes.len(),
{
    if scopes.len() == 0 {
        None
    } else if sc_has(scopes.last().vars, n) {
        Some(
            scopes.update(
                scopes.len() - 1,
                ScopeV { vars: sc_set(scopes.last().vars, n, v), ..scopes.last() },
            ),
        )
    } else {
        match chain_store(scopes.drop_last(), n, v) {
            None => None,
            Some(outer) => Some(outer.push(scopes.last())),
        }
    }
}

/// The body of the first function of this name, if one is registered.
pub open spec fn fn_lookup(funcs: Seq<(Seq<char>, Seq<InstrV>)>, n: Seq<char>) -> Option<
    Seq<InstrV>,
>
    decreases funcs.len(),
{
    if funcs.len() == 0 {
        None
    } else if funcs[0].0 == n {
        Some(funcs[0].1)
    } else {
        fn_lookup(funcs.subrange(1, funcs.len() as int), n)
    }
}

/// Whether a name was already imported.
pub open spec fn imported(imports: Seq<Seq<char>>, n: Seq<char>) -> bool {
    exists|i: int| 0 <= i < imports.len() && imports[i] == n
}


// ---------------------------------------------------------------------------
// The execution model
// ---------------------------------------------------------------------------
/// The outcome of one instruction: continue with the next, stop the
/// current sequence (a `Return`), fail fatally, or reach the host (after
/// which the model promises nothing).
pub enum StepR {
    Cont(StateV),
    Stop(StateV),
    Failed(StateV, RtV),
    Hosted,
}

/// The outcome of a whole sequence.
pub enum RunR {
    Done(StateV),
    Failed(StateV, RtV),
    Hosted,
}

/// Pushing a value.
pub open spec fn spec_push(st: StateV, v: ValueV) -> StateV {
    StateV { stack: st.stack.push(v), ..st }
}

/// Popping the top of the stack, if there is one.
pub open spec fn spec_pop(st: StateV) -> Option<(ValueV, StateV)> {
    if st.stack.len() == 0 {
        None
    } else {
        Some((st.stack.last(), StateV { stack: st.stack.drop_last(), ..st }))
    }
}

/// Popping `k` values, topmost first; underflow reports the state at the
/// moment the stack ran out.
pub open spec fn spec_pop_n(st: StateV, k: int) -> Result<(Seq<ValueV>, StateV), StateV>
    decreases k,
{
    if k <= 0 {
        Ok((Seq::empty(), st))
    } else {
        match spec_pop(st) {
            None => Err(st),
            Some((v, st1)) => match spec_pop_n(st1, k - 1) {
                Err(e) => Err(e),
                Ok((vs, st2)) => Ok((seq![v] + vs, st2)),
            },
        }
    }
}

/// Opening a fresh frame.
pub open spec fn spec_push_scope(st: StateV, name: Seq<char>) -> StateV {
    StateV { scopes: st.scopes.push(ScopeV { name, vars: Seq::empty() }), ..st }
}

/// Closing the innermost frame.
pub open spec fn spec_pop_scope(st: StateV) -> StateV {
    StateV { scopes: st.scopes.drop_last(), ..st }
}

/// Indexing an array value: the target must be an array, the index an
/// integer within bounds.
pub open spec fn spec_index(arr: ValueV, idx: ValueV) -> Result<ValueV, RtV> {
    if !(idx is Int) {
        Err(RtV::IndexError)
    } else if !(arr is Array) {
        Err(RtV::IndexError)
    } else {
        let i = idx->Int_0 as int;
        if 0 <= i < arr->Array_0.len() {
            Ok(arr->Array_0[i])
        } else {
            Err(RtV::IndexError)
        }
    }
}

/// One instruction.  Fuel is spent on entering any nested sequence.
pub open spec fn step_instr(fuel: nat, st: StateV, i: InstrV) -> StepR
    decreases fuel, 0int, 2int,
{
    match i {
        InstrV::Nop => StepR::Failed(st, RtV::UnsupportedInstruction),
        InstrV::Push(v) => StepR::Cont(spec_push(st, v)),
        InstrV::Pop => match spec_pop(st) {
            None => StepR::Failed(st, RtV::StackUnderflow),
            Some((_, st1)) => StepR::Cont(st1),
        },
        InstrV::GetVariable(n) => match chain_lookup(st.scopes, n) {
            Some(v) => StepR::Cont(spec_push(st, v)),
            None => StepR::Failed(st, RtV::UnboundVariable(n)),
        },
        InstrV::DeclareVariable(n) => match spec_pop(st) {
            None => StepR::Failed(st, RtV::StackUnderflow),
            Some((v, st1)) => {
                if st1.scopes.len() == 0 {
                    // Cannot happen: the global frame is never popped.
                    StepR::Failed(st1, RtV::StackUnderflow)
                } else if sc_has(st1.scopes.last().vars, n) {
                    StepR::Failed(st1, RtV::DuplicateBinding(n))
                } else {
                    StepR::Cont(
                        StateV {
                            scopes: st1.scopes.update(
                                st1.scopes.len() - 1,
                                ScopeV {
                                    vars: st1.scopes.last().vars.push((n, v)),
                                    ..st1.scopes.last()
                                },
                            ),
                            ..st1
                        },
                    )
                }
            },
        },
        InstrV::StoreVariable(n) => match spec_pop(st) {
            None => StepR::Failed(st, RtV::StackUnderflow),
            Some((v, st1)) => match chain_store(st1.scopes, n, v) {
                Some(sc) => StepR::Cont(StateV { scopes: sc, ..st1 }),
                None => StepR::Failed(st1, RtV::UnboundVariable(n)),
            },
        },
        InstrV::MakeArray(k) => match spec_pop_n(st, k as int) {
            Err(ste) => StepR::Failed(ste, RtV::StackUnderflow),
            Ok((vs, st1)) => StepR::Cont(spec_push(st1, ValueV::Array(vs.reverse()))),
        },
        InstrV::GetArrayElement(e) => {
            if fuel == 0 {
                StepR::Failed(st, RtV::RecursionLimit)
            } else {
                match run_seq((fuel - 1) as nat, st, e) {
                    RunR::Hosted => StepR::Hosted,
                    RunR::Failed(stf, err) => StepR::Failed(stf, err),
                    RunR::Done(st1) => match spec_pop(st1) {
                        None => StepR::Failed(st1, RtV::StackUnderflow),
                        Some((idx, st2)) => match spec_pop(st2) {
                            None => StepR::Failed(st2, RtV::StackUnderflow),
                            Some((arr, st3)) => match spec_index(arr, idx) {
                                Err(err) => StepR::Failed(st3, err),
                                Ok(v) => StepR::Cont(spec_push(st3, v)),
                            },
                        },
                    },
                }
            }
        },
        InstrV::GetVariableArrayElement(n, e) => {
            if fuel == 0 {
                StepR::Failed(st, RtV::RecursionLimit)
            } else {
                match run_seq((fuel - 1) as nat, st, e) {
                    RunR::Hosted => StepR::Hosted,
                    RunR::Failed(stf, err) => StepR::Failed(stf, err),
                    RunR::Done(st1) => match spec_pop(st1) {
                        None => StepR::Failed(st1, RtV::StackUnderflow),
                        Some((idx, st2)) => match chain_lookup(st2.scopes, n) {
                            None => StepR::Failed(st2, RtV::UnboundVariable(n)),
                            Some(arr) => match spec_index(arr, idx) {
                                Err(err) => StepR::Failed(st2, err),
                                Ok(v) => StepR::Cont(spec_push(st2, v)),
                            },
                        },
                    },
                }
            }
        },
        InstrV::StoreVariableArrayElement(n) => match chain_lookup(st.scopes, n) {
            None => StepR::Failed(st, RtV::UnboundVariable(n)),
            Some(arr) => match spec_pop(st) {
                None => StepR::Failed(st, RtV::StackUnderflow),
                Some((assign, st1)) => match spec_pop(st1) {
                    None => StepR::Failed(st1, RtV::StackUnderflow),
                    Some((idx, st2)) => {
                        if !(arr is Array) {
                            StepR::Failed(st2, RtV::IndexError)
                        } else if !(idx is Int) {
                            StepR::Failed(st2, RtV::IndexError)
                        } else {
                            let i = idx->Int_0 as int;
                            if !(0 <= i < arr->Array_0.len()) {
                                StepR::Failed(st2, RtV::IndexError)
                            } else {
                                let updated = ValueV::Array(arr->Array_0.update(i, assign));
                                match chain_store(st2.scopes, n, updated) {
                                    Some(sc) => StepR::Cont(StateV { scopes: sc, ..st2 }),
                                    None => StepR::Failed(st2, RtV::UnboundVariable(n)),
                                }
                            }
                        }
                    },
                },
            },
        },
        InstrV::DeclareFunction(n, body) => {
            if st.scopes.len() > 1 {
                StepR::Failed(st, RtV::NonGlobalFunction(n))
            } else if fn_lookup(st.funcs, n) is Some {
                StepR::Failed(st, RtV::DuplicateFunction(n))
            } else {
                StepR::Cont(StateV { funcs: st.funcs.push((n, body)), ..st })
            }
        },
        InstrV::Operation(o) => match spec_pop(st) {
            None => StepR::Failed(st, RtV::StackUnderflow),
            Some((lhs, st1)) => match spec_pop(st1) {
                None => StepR::Failed(st1, RtV::StackUnderflow),
                Some((rhs, st2)) => match spec_binop(o, lhs, rhs) {
                    Ok(v) => StepR::Cont(spec_push(st2, v)),
                    Err(e) => StepR::Failed(st2, rt_of_value_err(e)),
                },
            },
        },
        InstrV::If(a, b) => match spec_pop(st) {
            None => StepR::Failed(st, RtV::StackUnderflow),
            Some((cond, st1)) => {
                if cond is Array {
                    StepR::Failed(st1, RtV::TypeMismatch)
                } else if fuel == 0 {
                    StepR::Failed(st1, RtV::RecursionLimit)
                } else {
                    let branch = if truthy(cond) {
                        a
                    } else {
                        b
                    };
                    let name = if truthy(cond) {
                        "If block"@
                    } else {
                        "Else block"@
                    };
                    match run_seq((fuel - 1) as nat, spec_push_scope(st1, name), branch) {
                        RunR::Hosted => StepR::Hosted,
                        RunR::Failed(stf, err) => StepR::Failed(stf, err),
                        RunR::Done(st2) => StepR::Cont(spec_pop_scope(st2)),
                    }
                }
            },
        },
        InstrV::While(c, b) => match run_while(fuel, st, c, b) {
            RunR::Hosted => StepR::Hosted,
            RunR::Failed(stf, err) => StepR::Failed(stf, err),
            RunR::Done(st1) => StepR::Cont(st1),
        },
        InstrV::Call(name, args) => {
            if fuel == 0 {
                StepR::Failed(st, RtV::RecursionLimit)
            } else {
                match run_seq((fuel - 1) as nat, st, args) {
                    RunR::Hosted => StepR::Hosted,
                    RunR::Failed(stf, err) => StepR::Failed(stf, err),
                    RunR::Done(st1) => {
                        if name == "panic"@ {
                            // The reserved built-in: an optional message is
                            // taken from the stack, then execution is fatal.
                            match spec_pop(st1) {
                                Some((v, st2)) => StepR::Failed(
                                    st2,
                                    RtV::ScriptPanic(val_chars(v)),
                                ),
                                None => StepR::Failed(st1, RtV::ScriptPanic("PANIC"@)),
                            }
                        } else {
                            let st2 = spec_push_scope(st1, name);
                            match fn_lookup(st2.funcs, name) {
                                None => StepR::Failed(st2, RtV::UnknownFunction(name)),
                                Some(body) => match run_seq((fuel - 1) as nat, st2, body) {
                                    RunR::Hosted => StepR::Hosted,
                                    RunR::Failed(stf, err) => StepR::Failed(stf, err),
                                    RunR::Done(st3) => StepR::Cont(spec_pop_scope(st3)),
                                },
                            }
                        }
                    },
                }
            }
        },
        InstrV::CallNative(_) => StepR::Hosted,
        InstrV::Return => StepR::Stop(st),
        InstrV::Import(n) => {
            if imported(st.imports, n) {
                // Re-importing an already imported name is a no-op.
                StepR::Cont(st)
            } else {
                StepR::Hosted
            }
        },
    }
}

/// A loop: the condition runs, its value is popped and tested, and while
/// it stays true-like the body runs in a fresh frame.  Each iteration
/// spends fuel.
pub open spec fn run_while(fuel: nat, st: StateV, c: Seq<InstrV>, b: Seq<InstrV>) -> RunR
    decreases fuel, 0int, 1int,
{
    if fuel == 0 {
        RunR::Failed(st, RtV::RecursionLimit)
    } else {
        match run_seq((fuel - 1) as nat, st, c) {
            RunR::Hosted => RunR::Hosted,
            RunR::Failed(stf, err) => RunR::Failed(stf, err),
            RunR::Done(st1) => match spec_pop(st1) {
                None => RunR::Failed(st1, RtV::StackUnderflow),
                Some((v, st2)) => {
                    if v is Array {
                        RunR::Failed(st2, RtV::TypeMismatch)
                    } else if !truthy(v) {
                        RunR::Done(st2)
                    } else {
                        match run_seq(
                            (fuel - 1) as nat,
                            spec_push_scope(st2, "While loop"@),
                            b,
                        ) {
                            RunR::Hosted => RunR::Hosted,
                            RunR::Failed(stf, err) => RunR::Failed(stf, err),
                            RunR::Done(st3) => run_while(
                                (fuel - 1) as nat,
                                spec_pop_scope(st3),
                                c,
                                b,
                            ),
                        }
                    }
                },
            },
        }
    }
}

/// A whole instruction sequence, one instruction at a time.
pub open spec fn run_seq(fuel: nat, st: StateV, prog: Seq<InstrV>) -> RunR
    decreases fuel, prog.len(), 3int,
{
    if prog.len() == 0 {
        RunR::Done(st)
    } else {
        match step_instr(fuel, st, prog[0]) {
            StepR::Cont(st1) => run_seq(fuel, st1, prog.subrange(1, prog.len() as int)),
            StepR::Stop(st1) => RunR::Done(st1),
            StepR::Failed(stf, err) => RunR::Failed(stf, err),
            StepR::Hosted => RunR::Hosted,
        }
    }
}


// ---------------------------------------------------------------------------
// Chain lemmas
// ---------------------------------------------------------------------------
/// When every frame at `i` and beyond (toward the innermost end) lacks the
/// name except frame `i` itself, lookup and store both act on frame `i`.
pub proof fn lemma_chain_frame(scopes: Seq<ScopeV>, n: Seq<char>, v: ValueV, i: int)
    requires
        0 <= i < scopes.len(),
        sc_has(scopes[i].vars, n),
        forall|j: int| i < j < scopes.len() ==> !sc_has(#[trigger] scopes[j].vars, n),
    ensures
        chain_lookup(scopes, n) == Some(sc_get(scopes[i].vars, n)),
        chain_store(scopes, n, v) == Some(
            scopes.update(i, ScopeV { vars: sc_set(scopes[i].vars, n, v), ..scopes[i] }),
        ),
    decreases scopes.len(),
{
    if i == scopes.len() - 1 {
        assert(scopes.update(i, ScopeV { vars: sc_set(scopes[i].vars, n, v), ..scopes[i] })
            =~= scopes.update(
            scopes.len() - 1,
            ScopeV { vars: sc_set(scopes.last().vars, n, v), ..scopes.last() },
        ));
    } else {
        let outer = scopes.drop_last();
        assert(outer[i] == scopes[i]);
        lemma_chain_frame(outer, n, v, i);
        assert(chain_store(outer, n, v) matches Some(o) ==> o.push(scopes.last()) =~= scopes.update(
            i,
            ScopeV { vars: sc_set(scopes[i].vars, n, v), ..scopes[i] },
        ));
    }
}

/// When no frame binds the name, neither lookup nor store finds it.
pub proof fn lemma_chain_missing(scopes: Seq<ScopeV>, n: Seq<char>, v: ValueV)
    requires
        forall|j: int| 0 <= j < scopes.len() ==> !sc_has(#[trigger] scopes[j].vars, n),
    ensures
        chain_lookup(scopes, n) is None,
        chain_store(scopes, n, v) is None,
    decreases scopes.len(),
{
    if scopes.len() > 0 {
        lemma_chain_missing(scopes.drop_last(), n, v);
    }
}

// ---------------------------------------------------------------------------
// The host capability
// ---------------------------------------------------------------------------
/// What the embedding application supplies: native callables (which may
/// pop and push the value stack and may fail), the fixed set of reserved
/// native modules (each resolving to named native entries), and source
/// text for file imports.  The interpreter assumes nothing about any of
/// these beyond their types.
pub trait Host {
    /// Runs the native entry behind `handle` against the value stack.
    fn call_native(&mut self, handle: u64, stack: &mut Vec<Value>) -> Result<(), RuntimeError>;

    /// The native entries of a reserved module name, or nothing when the
    /// name is not a reserved module.
    fn resolve_module(&mut self, name: &String) -> Option<Vec<(String, u64)>>;

    /// The source text behind an import path, or nothing when it cannot
    /// be read.
    fn read_source(&mut self, path: &String) -> Option<String>;
}

/// A host with no native modules and no file system; scripts that stay
/// inside the core language run identically under any host.
pub struct NoHost {}

impl NoHost {
    pub fn new() -> NoHost {
        NoHost {}
    }
}

impl Host for NoHost {
    fn call_native(&mut self, handle: u64, stack: &mut Vec<Value>) -> Result<(), RuntimeError> {
        Err(RuntimeError::NativeError(String::new()))
    }

    fn resolve_module(&mut self, name: &String) -> Option<Vec<(String, u64)>> {
        None
    }

    fn read_source(&mut self, path: &String) -> Option<String> {
        None
    }
}

// ---------------------------------------------------------------------------
// The interpreter
// ---------------------------------------------------------------------------
/// The machine: the names already imported, the function table, the scope
/// chain (innermost last), the value stack (top last) and the last
/// instruction that began executing, kept for the diagnostic dump.
#[derive(Debug)]
pub struct Interpreter {
    imported_files: Vec<String>,
    funcs: Vec<(String, Vec<ParserToken>)>,
    variables: Vec<Scope>,
    stack: Vec<Value>,
    last_op: ParserToken,
}

/// The interpreter's state as the model sees it.
pub closed spec fn st_of(it: Interpreter) -> StateV {
    StateV {
        scopes: scope_views(it.variables@),
        funcs: func_views(it.funcs@),
        stack: value_views(it.stack@),
        imports: str_views(it.imported_files@),
    }
}

/// The state a fresh interpreter starts in: one empty global frame,
/// nothing else.
pub open spec fn init_state() -> StateV {
    StateV {
        scopes: seq![ScopeV { name: "global"@, vars: Seq::empty() }],
        funcs: Seq::empty(),
        stack: Seq::empty(),
        imports: Seq::empty(),
    }
}

impl Interpreter {
    /// A fresh machine with its global frame.
    pub fn new() -> (it: Interpreter)
        ensures
            st_of(it) == init_state(),
            st_inv(st_of(it)),
    {
        let mut it = Interpreter {
            imported_files: Vec::new(),
            funcs: Vec::new(),
            variables: Vec::new(),
            stack: Vec::new(),
            last_op: ParserToken::Nop,
        };
        it.start_scope(String::from_str("global"));
        proof {
            assert(st_of(it) =~= init_state());
        }
        it
    }

    /// Pushes a value onto the stack.
    pub fn push(&mut self, val: Value)
        ensures
            st_of(*final(self)) == spec_push(st_of(*old(self)), val@),
    {
        proof {
            crate::value::lemma_value_views_push(self.stack@, val);
        }
        self.stack.push(val);
        proof {
            assert(st_of(*self) =~= spec_push(st_of(*old(self)), val@));
        }
    }

    /// Pops the top of the stack; an empty stack is a fatal underflow.
    pub fn pop(&mut self) -> (r: Result<Value, RuntimeError>)
        ensures
            match r {
                Ok(v) => spec_pop(st_of(*old(self))) == Some((v@, st_of(*final(self)))),
                Err(e) => spec_pop(st_of(*old(self))) is None && e@ == RtV::StackUnderflow
                    && *final(self) == *old(self),
            },
    {
        proof {
            lemma_value_views(self.stack@);
        }
        if self.stack.len() == 0 {
            return Err(RuntimeError::StackUnderflow);
        }
        let v = match self.stack.pop() {
            Some(v) => v,
            None => {
                proof {
                    assert(false);
                }
                Value::Null
            },
        };
        proof {
            lemma_value_views(old(self).stack@);
            assert(value_views(self.stack@) =~= value_views(old(self).stack@).drop_last()) by {
                lemma_value_views(self.stack@);
            }
            assert(st_of(*self) =~= (StateV {
                stack: value_views(old(self).stack@).drop_last(),
                ..st_of(*old(self))
            }));
        }
        Ok(v)
    }

    fn get_scope_count(&self) -> (r: usize)
        ensures
            r == st_of(*self).scopes.len(),
    {
        proof {
            lemma_scope_views(self.variables@);
        }
        self.variables.len()
    }

    /// Opens a fresh innermost frame.
    fn start_scope(&mut self, scope_name: String)
        ensures
            st_of(*final(self)) == spec_push_scope(st_of(*old(self)), scope_name@),
    {
        let sc = Scope::new(scope_name);
        proof {
            lemma_scope_views(self.variables@.push(sc));
            lemma_scope_views(self.variables@);
            assert(scope_views(self.variables@.push(sc)) =~= scope_views(self.variables@).push(
                sc@,
            ));
        }
        self.variables.push(sc);
        proof {
            assert(st_of(*self) =~= spec_push_scope(st_of(*old(self)), sc@.name));
        }
    }

    /// Closes the innermost frame.
    fn end_scope(&mut self)
        requires
            st_inv(st_of(*old(self))),
        ensures
            st_of(*final(self)) == spec_pop_scope(st_of(*old(self))),
    {
        proof {
            lemma_scope_views(self.variables@);
        }
        let _ = self.variables.pop();
        proof {
            lemma_scope_views(self.variables@);
            assert(scope_views(self.variables@) =~= scope_views(old(self).variables@).drop_last());
            assert(st_of(*self) =~= spec_pop_scope(st_of(*old(self))));
        }
    }
}

/// The index of the first binding of a name in a frame's list, if any.
#[verifier::loop_isolation(false)]
fn scope_find(bindings: &Vec<(String, Value)>, name: &String) -> (r: Option<usize>)
    ensures
        match r {
            Some(k) => sc_has(binding_views(bindings@), name@) && k as int == sc_at(
                binding_views(bindings@),
                name@,
            ) && k < bindings@.len(),
            None => !sc_has(binding_views(bindings@), name@),
        },
{
    proof {
        lemma_binding_views(bindings@);
    }
    let mut i: usize = 0;
    while i < bindings.len()
        invariant
            i <= bindings@.len(),
            forall|j: int| 0 <= j < i as int ==> binding_views(bindings@)[j].0 != name@,
        decreases bindings@.len() - i,
    {
        if str_eq(bindings[i].0.as_str(), name.as_str()) {
            proof {
                assert(binding_views(bindings@)[i as int].0 == name@);
                lemma_sc_at(binding_views(bindings@), name@);
                assert(forall|j: int|
                    0 <= j < i as int ==> binding_views(bindings@)[j].0 != name@);
            }
            return Some(i);
        }
        i = i + 1;
    }
    proof {
        assert(!sc_has(binding_views(bindings@), name@));
    }
    None
}


impl Interpreter {
    /// The value of a name in the chain, scanning innermost outward.
    fn lookup_variable(&self, var_name: &String) -> (r: Option<Value>)
        ensures
            match r {
                Some(v) => chain_lookup(st_of(*self).scopes, var_name@) == Some(v@),
                None => chain_lookup(st_of(*self).scopes, var_name@) is None,
            },
    {
        proof {
            lemma_scope_views(self.variables@);
        }
        let ghost sv = scope_views(self.variables@);
        let mut i: usize = self.variables.len();
        while i > 0
            invariant
                i <= self.variables@.len(),
                sv == scope_views(self.variables@),
                sv.len() == self.variables@.len(),
                forall|j: int| 0 <= j < self.variables@.len() ==> sv[j] == self.variables@[j]@,
                forall|j: int| i as int <= j < sv.len() ==> !sc_has(#[trigger] sv[j].vars, var_name@),
            decreases i,
        {
            i = i - 1;
            match scope_find(&self.variables[i].variables, var_name) {
                Some(k) => {
                    let v = self.variables[i].variables[k].1.clone();
                    proof {
                        lemma_binding_views(self.variables@[i as int].variables@);
                        lemma_sc_at(sv[i as int].vars, var_name@);
                        lemma_chain_frame(sv, var_name@, v@, i as int);
                    }
                    return Some(v);
                },
                None => {},
            }
        }
        proof {
            lemma_chain_missing(sv, var_name@, ValueV::Null);
        }
        None
    }

    /// Pushes the value of a variable; an unbound name is fatal.
    fn get_variable(&mut self, var_name: &String) -> (r: Result<(), RuntimeError>)
        ensures
            match r {
                Ok(_) => chain_lookup(st_of(*old(self)).scopes, var_name@) matches Some(v)
                    && st_of(*final(self)) == spec_push(st_of(*old(self)), v),
                Err(e) => chain_lookup(st_of(*old(self)).scopes, var_name@) is None && e@
                    == RtV::UnboundVariable(var_name@) && *final(self) == *old(self),
            },
    {
        match self.lookup_variable(var_name) {
            Some(v) => {
                self.push(v);
                Ok(())
            },
            None => Err(RuntimeError::UnboundVariable(var_name.clone())),
        }
    }

    /// A copy of a variable's value; an unbound name is fatal.
    pub fn get_variable_value(&mut self, var_name: &String) -> (r: Result<Value, RuntimeError>)
        ensures
            *final(self) == *old(self),
            match r {
                Ok(v) => chain_lookup(st_of(*old(self)).scopes, var_name@) == Some(v@),
                Err(e) => chain_lookup(st_of(*old(self)).scopes, var_name@) is None && e@
                    == RtV::UnboundVariable(var_name@),
            },
    {
        match self.lookup_variable(var_name) {
            Some(v) => Ok(v),
            None => Err(RuntimeError::UnboundVariable(var_name.clone())),
        }
    }

    /// Pops a value and binds it in the innermost frame; a name already
    /// bound there is a duplicate binding.
    fn declare_variable(&mut self, var_name: &String) -> (r: Result<(), RuntimeError>)
        requires
            st_inv(st_of(*old(self))),
        ensures
            st_inv(st_of(*final(self))),
            r is Ok ==> st_of(*final(self)).scopes.len() == st_of(*old(self)).scopes.len(),
            match spec_pop(st_of(*old(self))) {
                None => r matches Err(e) && e@ == RtV::StackUnderflow && st_of(*final(self))
                    == st_of(*old(self)),
                Some((v, st1)) => {
                    if sc_has(st1.scopes.last().vars, var_name@) {
                        r matches Err(e) && e@ == RtV::DuplicateBinding(var_name@) && st_of(
                            *final(self),
                        ) == st1
                    } else {
                        r is Ok && st_of(*final(self)) == (StateV {
                            scopes: st1.scopes.update(
                                st1.scopes.len() - 1,
                                ScopeV {
                                    vars: st1.scopes.last().vars.push((var_name@, v)),
                                    ..st1.scopes.last()
                                },
                            ),
                            ..st1
                        })
                    }
                },
            },
    {
        let val = match self.pop() {
            Ok(v) => v,
            Err(e) => {
                return Err(e);
            },
        };
        proof {
            lemma_scope_views(self.variables@);
        }
        let last = self.variables.len() - 1;
        match scope_find(&self.variables[last].variables, var_name) {
            Some(_) => Err(RuntimeError::DuplicateBinding(var_name.clone())),
            None => {
                let mut sc = self.variables.remove(last);
                let ghost oldvars = sc.variables@;
                sc.variables.push((var_name.clone(), val));
                proof {
                    lemma_binding_views(sc.variables@);
                    lemma_binding_views(oldvars);
                    assert(binding_views(sc.variables@) =~= binding_views(oldvars).push(
                        (var_name@, val@),
                    ));
                }
                self.variables.insert(last, sc);
                proof {
                    lemma_scope_views(self.variables@);
                    lemma_scope_views(old(self).variables@);
                    assert(scope_views(self.variables@) =~= scope_views(
                        old(self).variables@,
                    ).update(
                        last as int,
                        ScopeV {
                            vars: scope_views(old(self).variables@).last().vars.push(
                                (var_name@, val@),
                            ),
                            ..scope_views(old(self).variables@).last()
                        },
                    ));
                    assert(st_of(*self) =~= (StateV {
                        scopes: scope_views(self.variables@),
                        stack: value_views(self.stack@),
                        ..st_of(*old(self))
                    }));
                }
                Ok(())
            },
        }
    }

    /// Pops a value and re-assigns the first (innermost) binding of the
    /// name anywhere in the chain; an unbound name is fatal.
    #[verifier::loop_isolation(false)]
    fn store_variable(&mut self, var_name: &String) -> (r: Result<(), RuntimeError>)
        requires
            st_inv(st_of(*old(self))),
        ensures
            st_inv(st_of(*final(self))),
            r is Ok ==> st_of(*final(self)).scopes.len() == st_of(*old(self)).scopes.len(),
            match spec_pop(st_of(*old(self))) {
                None => r matches Err(e) && e@ == RtV::StackUnderflow && st_of(*final(self))
                    == st_of(*old(self)),
                Some((v, st1)) => match chain_store(st1.scopes, var_name@, v) {
                    Some(sc) => r is Ok && st_of(*final(self)) == (StateV { scopes: sc, ..st1 }),
                    None => r matches Err(e) && e@ == RtV::UnboundVariable(var_name@) && st_of(
                        *final(self),
                    ) == st1,
                },
            },
    {
        let val = match self.pop() {
            Ok(v) => v,
            Err(e) => {
                return Err(e);
            },
        };
        let ghost vv = val@;
        let ghost st1g = st_of(*self);
        proof {
            lemma_scope_views(self.variables@);
        }
        let ghost sv = scope_views(self.variables@);
        let mut i: usize = self.variables.len();
        while i > 0
            invariant
                i <= self.variables@.len(),
                st_of(*self) == st1g,
                sv == scope_views(self.variables@),
                sv.len() == self.variables@.len(),
                forall|j: int| 0 <= j < self.variables@.len() ==> sv[j] == self.variables@[j]@,
                forall|j: int| i as int <= j < sv.len() ==> !sc_has(#[trigger] sv[j].vars, var_name@),
            decreases i,
        {
            i = i - 1;
            match scope_find(&self.variables[i].variables, var_name) {
                Some(k) => {
                    proof {
                        lemma_chain_frame(sv, var_name@, vv, i as int);
                    }
                    let ghost chain0 = self.variables@;
                    let mut sc = self.variables.remove(i);
                    let ghost oldv = sc.variables@;
                    proof {
                        lemma_binding_views(oldv);
                        lemma_sc_at(sv[i as int].vars, var_name@);
                        assert(sv[i as int].vars == binding_views(oldv));
                    }
                    let pair = sc.variables.remove(k);
                    let ghost keyv = pair.0@;
                    proof {
                        assert(pair == oldv[k as int]);
                        assert(keyv == binding_views(oldv)[k as int].0);
                        assert(keyv == var_name@);
                    }
                    let newpair = (pair.0, val);
                    let ghost np = newpair;
                    sc.variables.insert(k, newpair);
                    proof {
                        lemma_binding_views(sc.variables@);
                        assert(sc.variables@[k as int] == np);
                        assert(np.0@ == var_name@);
                        assert(value_view(np.1) == vv);
                        assert(sc.variables@ =~= oldv.update(k as int, np));
                        assert(sc.variables@[k as int].0@ == var_name@);
                        assert(value_view(sc.variables@[k as int].1) == vv);
                        assert(sc.variables@.len() == oldv.len());
                        assert forall|j: int| 0 <= j < oldv.len() implies binding_views(
                            sc.variables@,
                        )[j] == sc_set(sv[i as int].vars, var_name@, vv)[j] by {
                            if j != k as int {
                                assert(sc.variables@[j] == oldv[j]);
                            }
                        }
                        assert(binding_views(sc.variables@) =~= sc_set(
                            sv[i as int].vars,
                            var_name@,
                            vv,
                        ));
                    }
                    self.variables.insert(i, sc);
                    proof {
                        lemma_scope_views(self.variables@);
                        assert(self.variables@.len() == chain0.len());
                        assert forall|j: int| 0 <= j < chain0.len() implies scope_views(
                            self.variables@,
                        )[j] == sv.update(
                            i as int,
                            ScopeV {
                                vars: sc_set(sv[i as int].vars, var_name@, vv),
                                ..sv[i as int]
                            },
                        )[j] by {
                            if j != i as int {
                                assert(self.variables@[j] == chain0[j]);
                            }
                        }
                        assert(scope_views(self.variables@) =~= sv.update(
                            i as int,
                            ScopeV { vars: sc_set(sv[i as int].vars, var_name@, vv), ..sv[
                                i as int
                            ] },
                        ));
                        assert(st_of(*self) =~= (StateV {
                            scopes: scope_views(self.variables@),
                            ..st1g
                        }));
                    }
                    return Ok(());
                },
                None => {},
            }
        }
        proof {
            lemma_chain_missing(sv, var_name@, vv);
        }
        Err(RuntimeError::UnboundVariable(var_name.clone()))
    }

    /// Registers a function body; only legal in the global scope and only
    /// once per name.
    fn declare_function(&mut self, fn_name: &String, fn_body: &Vec<ParserToken>) -> (r: Result<
        (),
        RuntimeError,
    >)
        requires
            st_inv(st_of(*old(self))),
        ensures
            st_inv(st_of(*final(self))),
            r is Ok ==> st_of(*final(self)).scopes.len() == st_of(*old(self)).scopes.len(),
            ({
                let st = st_of(*old(self));
                if st.scopes.len() > 1 {
                    r matches Err(e) && e@ == RtV::NonGlobalFunction(fn_name@) && st_of(
                        *final(self),
                    ) == st
                } else if fn_lookup(st.funcs, fn_name@) is Some {
                    r matches Err(e) && e@ == RtV::DuplicateFunction(fn_name@) && st_of(
                        *final(self),
                    ) == st
                } else {
                    r is Ok && st_of(*final(self)) == (StateV {
                        funcs: st.funcs.push((fn_name@, instr_views(fn_body@))),
                        ..st
                    })
                }
            }),
    {
        if self.get_scope_count() > 1 {
            return Err(RuntimeError::NonGlobalFunction(fn_name.clone()));
        }
        match self.find_function(fn_name) {
            Some(_) => Err(RuntimeError::DuplicateFunction(fn_name.clone())),
            None => {
                let body = clone_instr_vec(fn_body);
                proof {
                    lemma_func_views(self.funcs@);
                }
                self.funcs.push((fn_name.clone(), body));
                proof {
                    lemma_func_views(self.funcs@);
                    assert(func_views(self.funcs@) =~= func_views(old(self).funcs@).push(
                        (fn_name@, instr_views(fn_body@)),
                    ));
                    assert(fn_lookup(func_views(old(self).funcs@), fn_name@) is None ==> st_of(
                        *self,
                    ) =~= (StateV {
                        funcs: st_of(*old(self)).funcs.push((fn_name@, instr_views(fn_body@))),
                        ..st_of(*old(self))
                    }));
                }
                Ok(())
            },
        }
    }

    /// A copy of the body of a registered function, if any.
    fn find_function(&self, fn_name: &String) -> (r: Option<Vec<ParserToken>>)
        ensures
            match r {
                Some(body) => fn_lookup(st_of(*self).funcs, fn_name@) == Some(
                    instr_views(body@),
                ),
                None => fn_lookup(st_of(*self).funcs, fn_name@) is None,
            },
    {
        proof {
            lemma_func_views(self.funcs@);
        }
        let ghost fv = func_views(self.funcs@);
        proof {
            assert(fv.subrange(0, fv.len() as int) =~= fv);
        }
        let mut i: usize = 0;
        while i < self.funcs.len()
            invariant
                i <= self.funcs@.len(),
                fv == func_views(self.funcs@),
                fv.len() == self.funcs@.len(),
                forall|j: int|
                    0 <= j < self.funcs@.len() ==> fv[j] == (
                        self.funcs@[j].0@,
                        instr_views(self.funcs@[j].1@),
                    ),
                fn_lookup(fv, fn_name@) == fn_lookup(fv.subrange(i as int, fv.len() as int), fn_name@),
            decreases self.funcs@.len() - i,
        {
            if str_eq(self.funcs[i].0.as_str(), fn_name.as_str()) {
                let body = clone_instr_vec(&self.funcs[i].1);
                proof {
                    assert(fv.subrange(i as int, fv.len() as int)[0] == fv[i as int]);
                }
                return Some(body);
            }
            proof {
                assert(fv.subrange(i as int, fv.len() as int)[0] == fv[i as int]);
                assert(fv.subrange(i as int, fv.len() as int).subrange(
                    1,
                    fv.len() - i as int,
                ) =~= fv.subrange(i + 1 as int, fv.len() as int));
            }
            i = i + 1;
        }
        proof {
            assert(fv.subrange(fv.len() as int, fv.len() as int).len() == 0);
        }
        None
    }
}


/// How an execution result must relate to a sequence outcome of the model.
pub open spec fn obeys_run(r: Result<(), RuntimeError>, post: StateV, outcome: RunR) -> bool {
    match outcome {
        RunR::Done(st) => r is Ok && post == st,
        RunR::Failed(stf, e) => (r matches Err(re) && re@ == e) && post == stf,
        RunR::Hosted => true,
    }
}

/// How an execution result must relate to a single-step outcome of the
/// model.
pub open spec fn obeys_step(r: Result<(), RuntimeError>, post: StateV, s: StepR) -> bool {
    match s {
        StepR::Cont(st) => r is Ok && post == st,
        StepR::Stop(st) => false,
        StepR::Failed(stf, e) => (r matches Err(re) && re@ == e) && post == stf,
        StepR::Hosted => true,
    }
}

impl Interpreter {
    /// Pops `arg_count` values, restores their source order and pushes
    /// them as one array.
    #[verifier::loop_isolation(false)]
    fn make_array(&mut self, arg_count: u32) -> (r: Result<(), RuntimeError>)
        requires
            st_inv(st_of(*old(self))),
        ensures
            st_inv(st_of(*final(self))),
            r is Ok ==> st_of(*final(self)).scopes.len() == st_of(*old(self)).scopes.len(),
            match spec_pop_n(st_of(*old(self)), arg_count as int) {
                Err(ste) => r matches Err(e) && e@ == RtV::StackUnderflow && st_of(*final(self))
                    == ste,
                Ok((vs, st1)) => r is Ok && st_of(*final(self)) == spec_push(
                    st1,
                    ValueV::Array(vs.reverse()),
                ),
            },
    {
        let ghost st0 = st_of(*old(self));
        let ghost total = arg_count as int;
        let mut array: Vec<Value> = Vec::new();
        proof {
            lemma_value_views(array@);
            assert(value_views(array@) =~= Seq::<ValueV>::empty());
        }
        let mut k: u32 = 0;
        while k < arg_count
            invariant
                k <= arg_count,
                st_inv(st_of(*self)),
                st_of(*self).scopes == st0.scopes,
                st_of(*self).funcs == st0.funcs,
                st_of(*self).imports == st0.imports,
                spec_pop_n(st0, total) == (match spec_pop_n(
                    st_of(*self),
                    total - k as int,
                ) {
                    Err(e) => Err::<(Seq<ValueV>, StateV), StateV>(e),
                    Ok((vs, st2)) => Ok::<(Seq<ValueV>, StateV), StateV>(
                        (value_views(array@) + vs, st2),
                    ),
                }),
            decreases arg_count - k,
        {
            let ghost arr0 = value_views(array@);
            let v = match self.pop() {
                Ok(v) => v,
                Err(e) => {
                    return Err(e);
                },
            };
            proof {
                crate::value::lemma_value_views_push(array@, v);
            }
            array.push(v);
            proof {
                assert(value_views(array@) == arr0.push(v@));
                assert forall|vs: Seq<ValueV>| true implies arr0 + (seq![v@] + vs) =~= arr0.push(
                    v@,
                ) + vs by {}
            }
            k = k + 1;
        }
        proof {
            lemma_value_views(array@);
            assert(value_views(array@) + Seq::<ValueV>::empty() =~= value_views(array@));
        }
        // Restore source order: the last value popped was pushed first.
        let mut rev: Vec<Value> = Vec::new();
        let mut j: usize = 0;
        proof {
            lemma_value_views(rev@);
        }
        while j < array.len()
            invariant
                j <= array@.len(),
                value_views(array@).len() == array@.len(),
                forall|x: int|
                    0 <= x < array@.len() ==> value_views(array@)[x] == array@[x]@,
                value_views(rev@).len() == j as int,
                forall|x: int|
                    0 <= x < j as int ==> value_views(rev@)[x] == value_views(array@)[
                        array@.len() - 1 - x
                    ],
            decreases array@.len() - j,
        {
            proof {
                lemma_value_views(rev@);
            }
            let c = array[array.len() - 1 - j].clone();
            proof {
                crate::value::lemma_value_views_push(rev@, c);
            }
            rev.push(c);
            j = j + 1;
        }
        proof {
            lemma_value_views(rev@);
            assert(value_views(rev@) =~= value_views(array@).reverse());
        }
        self.push(Value::Array(rev));
        Ok(())
    }

    /// Pops the two operands (left operand on top) and applies the named
    /// binary operator.
    fn op(&mut self, op: &String) -> (r: Result<(), RuntimeError>)
        requires
            st_inv(st_of(*old(self))),
        ensures
            st_inv(st_of(*final(self))),
            r is Ok ==> st_of(*final(self)).scopes.len() == st_of(*old(self)).scopes.len(),
            match spec_pop(st_of(*old(self))) {
                None => r matches Err(e) && e@ == RtV::StackUnderflow && st_of(*final(self))
                    == st_of(*old(self)),
                Some((lhs, st1)) => match spec_pop(st1) {
                    None => r matches Err(e) && e@ == RtV::StackUnderflow && st_of(*final(self))
                        == st1,
                    Some((rhs, st2)) => match spec_binop(op@, lhs, rhs) {
                        Ok(v) => r is Ok && st_of(*final(self)) == spec_push(st2, v),
                        Err(e) => r matches Err(re) && re@ == rt_of_value_err(e) && st_of(
                            *final(self),
                        ) == st2,
                    },
                },
            },
    {
        let lhs = match self.pop() {
            Ok(v) => v,
            Err(e) => {
                return Err(e);
            },
        };
        let rhs = match self.pop() {
            Ok(v) => v,
            Err(e) => {
                return Err(e);
            },
        };
        match lhs.do_operation(op, rhs) {
            Ok(v) => {
                self.push(v);
                Ok(())
            },
            Err(e) => Err(runtime_of_value_err(e)),
        }
    }

    /// Pushes one element of an array value; the index must be an integer
    /// in bounds.
    fn index_array(&mut self, array_value: &Value, index: &Value) -> (r: Result<(), RuntimeError>)
        requires
            st_inv(st_of(*old(self))),
        ensures
            st_inv(st_of(*final(self))),
            r is Ok ==> st_of(*final(self)).scopes.len() == st_of(*old(self)).scopes.len(),
            match spec_index(array_value@, index@) {
                Ok(v) => r is Ok && st_of(*final(self)) == spec_push(st_of(*old(self)), v),
                Err(e) => r matches Err(re) && re@ == e && *final(self) == *old(self),
            },
    {
        proof {
            crate::value::lemma_view_variants(*array_value);
            crate::value::lemma_view_variants(*index);
        }
        match index {
            Value::Int(idx) => match array_value {
                Value::Array(arr) => {
                    proof {
                        lemma_value_views(arr@);
                    }
                    if *idx >= 0 && (*idx as u64) < (arr.len() as u64) {
                        let iu: usize = *idx as usize;
                        let elem = arr[iu].clone();
                        self.push(elem);
                        Ok(())
                    } else {
                        Err(RuntimeError::IndexError)
                    }
                },
                _ => Err(RuntimeError::IndexError),
            },
            _ => Err(RuntimeError::IndexError),
        }
    }

    /// Reads the named array, replaces one element and writes the whole
    /// array back through the chain.
    fn store_variable_array_element(&mut self, var_name: &String) -> (r: Result<
        (),
        RuntimeError,
    >)
        requires
            st_inv(st_of(*old(self))),
        ensures
            st_inv(st_of(*final(self))),
            r is Ok ==> st_of(*final(self)).scopes.len() == st_of(*old(self)).scopes.len(),
            obeys_step(
                r,
                st_of(*final(self)),
                step_instr(0, st_of(*old(self)), InstrV::StoreVariableArrayElement(var_name@)),
            ),
    {
        let value = match self.lookup_variable(var_name) {
            Some(v) => v,
            None => {
                return Err(RuntimeError::UnboundVariable(var_name.clone()));
            },
        };
        let assign = match self.pop() {
            Ok(v) => v,
            Err(e) => {
                return Err(e);
            },
        };
        let index = match self.pop() {
            Ok(v) => v,
            Err(e) => {
                return Err(e);
            },
        };
        proof {
            crate::value::lemma_view_variants(value);
            crate::value::lemma_view_variants(index);
        }
        match value {
            Value::Array(mut array) => match index {
                Value::Int(idx) => {
                    proof {
                        lemma_value_views(array@);
                    }
                    if idx >= 0 && (idx as u64) < (array.len() as u64) {
                        let iu: usize = idx as usize;
                        let ghost oldav = array@;
                        let ghost av = assign@;
                        let _ = array.remove(iu);
                        array.insert(iu, assign);
                        proof {
                            lemma_value_views(array@);
                            assert(array@.len() == oldav.len());
                            assert forall|x: int| 0 <= x < oldav.len() implies value_views(
                                array@,
                            )[x] == value_views(oldav).update(iu as int, av)[x] by {
                                if x != iu as int {
                                    assert(array@[x] == oldav[x]);
                                }
                            }
                            assert(value_views(array@) =~= value_views(oldav).update(
                                iu as int,
                                av,
                            ));
                        }
                        let ghost st2g = st_of(*self);
                        let ghost uv = ValueV::Array(value_views(oldav).update(iu as int, av));
                        self.push(Value::Array(array));
                        proof {
                            assert(st_of(*self) == spec_push(st2g, uv));
                            assert(spec_pop(spec_push(st2g, uv)) == Some((uv, st2g))) by {
                                assert(spec_push(st2g, uv).stack.last() == uv);
                                assert((StateV {
                                    stack: spec_push(st2g, uv).stack.drop_last(),
                                    ..spec_push(st2g, uv)
                                }) =~= st2g);
                            }
                        }
                        match self.store_variable(var_name) {
                            Ok(_) => Ok(()),
                            Err(e) => Err(e),
                        }
                    } else {
                        Err(RuntimeError::IndexError)
                    }
                },
                _ => Err(RuntimeError::IndexError),
            },
            _ => Err(RuntimeError::IndexError),
        }
    }
}


impl Interpreter {
    /// Evaluates an index expression, pops index and target and pushes the
    /// selected element.
    fn get_array_element<H: Host>(
        &mut self,
        expr: &Vec<ParserToken>,
        host: &mut H,
        fuel: u64,
    ) -> (r: Result<(), RuntimeError>)
        requires
            st_inv(st_of(*old(self))),
        ensures
            st_inv(st_of(*final(self))),
            r is Ok ==> st_of(*final(self)).scopes.len() == st_of(*old(self)).scopes.len(),
            obeys_step(
                r,
                st_of(*final(self)),
                step_instr(
                    fuel as nat,
                    st_of(*old(self)),
                    InstrV::GetArrayElement(instr_views(expr@)),
                ),
            ),
        decreases fuel, 0int, 1int,
    {
        if fuel == 0 {
            return Err(RuntimeError::RecursionLimit);
        }
        match self.exec_seq(expr, host, fuel - 1) {
            Ok(_) => {},
            Err(e) => {
                return Err(e);
            },
        }
        let idx = match self.pop() {
            Ok(v) => v,
            Err(e) => {
                return Err(e);
            },
        };
        let array = match self.pop() {
            Ok(v) => v,
            Err(e) => {
                return Err(e);
            },
        };
        self.index_array(&array, &idx)
    }

    /// Evaluates an index expression, pops the index, reads the named
    /// array and pushes the selected element.
    fn get_variable_array_element<H: Host>(
        &mut self,
        variable: &String,
        expr: &Vec<ParserToken>,
        host: &mut H,
        fuel: u64,
    ) -> (r: Result<(), RuntimeError>)
        requires
            st_inv(st_of(*old(self))),
        ensures
            st_inv(st_of(*final(self))),
            r is Ok ==> st_of(*final(self)).scopes.len() == st_of(*old(self)).scopes.len(),
            obeys_step(
                r,
                st_of(*final(self)),
                step_instr(
                    fuel as nat,
                    st_of(*old(self)),
                    InstrV::GetVariableArrayElement(variable@, instr_views(expr@)),
                ),
            ),
        decreases fuel, 0int, 1int,
    {
        if fuel == 0 {
            return Err(RuntimeError::RecursionLimit);
        }
        match self.exec_seq(expr, host, fuel - 1) {
            Ok(_) => {},
            Err(e) => {
                return Err(e);
            },
        }
        let idx = match self.pop() {
            Ok(v) => v,
            Err(e) => {
                return Err(e);
            },
        };
        let array = match self.lookup_variable(variable) {
            Some(v) => v,
            None => {
                return Err(RuntimeError::UnboundVariable(variable.clone()));
            },
        };
        self.index_array(&array, &idx)
    }

    /// Pops the condition and runs the chosen branch in a fresh frame.
    fn if_statement<H: Host>(
        &mut self,
        true_body: &Vec<ParserToken>,
        false_body: &Vec<ParserToken>,
        host: &mut H,
        fuel: u64,
    ) -> (r: Result<(), RuntimeError>)
        requires
            st_inv(st_of(*old(self))),
        ensures
            st_inv(st_of(*final(self))),
            r is Ok ==> st_of(*final(self)).scopes.len() == st_of(*old(self)).scopes.len(),
            obeys_step(
                r,
                st_of(*final(self)),
                step_instr(
                    fuel as nat,
                    st_of(*old(self)),
                    InstrV::If(instr_views(true_body@), instr_views(false_body@)),
                ),
            ),
        decreases fuel, 0int, 1int,
    {
        let value = match self.pop() {
            Ok(v) => v,
            Err(e) => {
                return Err(e);
            },
        };
        proof {
            crate::value::lemma_view_variants(value);
        }
        if matches!(value, Value::Array(_)) {
            return Err(RuntimeError::TypeMismatch);
        }
        if fuel == 0 {
            return Err(RuntimeError::RecursionLimit);
        }
        if value.is_true() {
            self.start_scope(String::from_str("If block"));
            match self.exec_seq(true_body, host, fuel - 1) {
                Ok(_) => {},
                Err(e) => {
                    return Err(e);
                },
            }
            self.end_scope();
        } else {
            self.start_scope(String::from_str("Else block"));
            match self.exec_seq(false_body, host, fuel - 1) {
                Ok(_) => {},
                Err(e) => {
                    return Err(e);
                },
            }
            self.end_scope();
        }
        Ok(())
    }

    /// Runs the loop: evaluate the condition, test its truthiness, run the
    /// body in a fresh frame, repeat.
    #[verifier::loop_isolation(false)]
    fn while_loop<H: Host>(
        &mut self,
        check: &Vec<ParserToken>,
        body: &Vec<ParserToken>,
        host: &mut H,
        fuel: u64,
    ) -> (r: Result<(), RuntimeError>)
        requires
            st_inv(st_of(*old(self))),
        ensures
            st_inv(st_of(*final(self))),
            r is Ok ==> st_of(*final(self)).scopes.len() == st_of(*old(self)).scopes.len(),
            obeys_run(
                r,
                st_of(*final(self)),
                run_while(
                    fuel as nat,
                    st_of(*old(self)),
                    instr_views(check@),
                    instr_views(body@),
                ),
            ),
        decreases fuel, 0int, 1int,
    {
        let ghost cv = instr_views(check@);
        let ghost bv = instr_views(body@);
        let ghost total = run_while(fuel as nat, st_of(*old(self)), cv, bv);
        let mut f = fuel;
        loop
            invariant
                st_inv(st_of(*self)),
                st_of(*self).scopes.len() == st_of(*old(self)).scopes.len(),
                f <= fuel,
                total == run_while(f as nat, st_of(*self), cv, bv) || total is Hosted,
            decreases f,
        {
            if f == 0 {
                return Err(RuntimeError::RecursionLimit);
            }
            match self.exec_seq(check, host, f - 1) {
                Ok(_) => {},
                Err(e) => {
                    return Err(e);
                },
            }
            let value = match self.pop() {
                Ok(v) => v,
                Err(e) => {
                    return Err(e);
                },
            };
            proof {
                crate::value::lemma_view_variants(value);
            }
            if matches!(value, Value::Array(_)) {
                return Err(RuntimeError::TypeMismatch);
            }
            if !value.is_true() {
                return Ok(());
            }
            self.start_scope(String::from_str("While loop"));
            match self.exec_seq(body, host, f - 1) {
                Ok(_) => {},
                Err(e) => {
                    return Err(e);
                },
            }
            self.end_scope();
            f = f - 1;
        }
    }

    /// Evaluates the arguments, opens a frame named after the function,
    /// runs its body (or the reserved `panic` built-in) and closes the
    /// frame.  The call's value is whatever the body left on the stack.
    fn call_function<H: Host>(
        &mut self,
        fn_name: &String,
        arg_tokens: &Vec<ParserToken>,
        host: &mut H,
        fuel: u64,
    ) -> (r: Result<(), RuntimeError>)
        requires
            st_inv(st_of(*old(self))),
        ensures
            st_inv(st_of(*final(self))),
            r is Ok ==> st_of(*final(self)).scopes.len() == st_of(*old(self)).scopes.len(),
            obeys_step(
                r,
                st_of(*final(self)),
                step_instr(
                    fuel as nat,
                    st_of(*old(self)),
                    InstrV::Call(fn_name@, instr_views(arg_tokens@)),
                ),
            ),
        decreases fuel, 0int, 1int,
    {
        if fuel == 0 {
            return Err(RuntimeError::RecursionLimit);
        }
        match self.exec_seq(arg_tokens, host, fuel - 1) {
            Ok(_) => {},
            Err(e) => {
                return Err(e);
            },
        }
        // The reserved built-in `panic` pops an optional message and is
        // always fatal.
        if str_eq(fn_name.as_str(), "panic") {
            proof {
                lemma_value_views(self.stack@);
            }
            if self.stack.len() > 0 {
                let value = match self.pop() {
                    Ok(v) => v,
                    Err(e) => {
                        return Err(e);
                    },
                };
                return Err(RuntimeError::ScriptPanic(value.to_string()));
            }
            return Err(RuntimeError::ScriptPanic(String::from_str("PANIC")));
        }
        self.start_scope(fn_name.clone());
        let body = match self.find_function(fn_name) {
            Some(b) => b,
            None => {
                return Err(RuntimeError::UnknownFunction(fn_name.clone()));
            },
        };
        match self.exec_seq(&body, host, fuel - 1) {
            Ok(_) => {},
            Err(e) => {
                return Err(e);
            },
        }
        self.end_scope();
        Ok(())
    }

    /// An import: a name already imported is a no-op; otherwise the host
    /// resolves it as a native module (whose entries are registered) or as
    /// source text (which runs through the whole pipeline in the current
    /// state).
    #[verifier::loop_isolation(false)]
    fn import<H: Host>(&mut self, library: &String, host: &mut H, fuel: u64) -> (r: Result<
        (),
        RuntimeError,
    >)
        requires
            st_inv(st_of(*old(self))),
        ensures
            st_inv(st_of(*final(self))),
            r is Ok ==> st_of(*final(self)).scopes.len() == st_of(*old(self)).scopes.len(),
            obeys_step(
                r,
                st_of(*final(self)),
                step_instr(fuel as nat, st_of(*old(self)), InstrV::Import(library@)),
            ),
        decreases fuel, 0int, 1int,
    {
        proof {
            crate::parser::lemma_str_views(self.imported_files@);
        }
        // Re-importing is idempotent: nothing runs twice.
        let mut i: usize = 0;
        while i < self.imported_files.len()
            invariant
                i <= self.imported_files@.len(),
                forall|j: int|
                    0 <= j < i as int ==> str_views(self.imported_files@)[j] != library@,
            decreases self.imported_files@.len() - i,
        {
            if str_eq(self.imported_files[i].as_str(), library.as_str()) {
                proof {
                    assert(str_views(self.imported_files@)[i as int] == library@);
                    assert(imported(st_of(*self).imports, library@));
                }
                return Ok(());
            }
            i = i + 1;
        }
        proof {
            assert(!imported(st_of(*self).imports, library@));
        }
        self.imported_files.push(library.clone());
        proof {
            crate::parser::lemma_str_views(self.imported_files@);
        }
        match host.resolve_module(library) {
            Some(entries) => {
                let mut k: usize = 0;
                while k < entries.len()
                    invariant
                        st_inv(st_of(*self)),
                        st_of(*self).scopes.len() == st_of(*old(self)).scopes.len(),
                    decreases entries@.len() - k,
                {
                    let mut native_body: Vec<ParserToken> = Vec::new();
                    native_body.push(ParserToken::CallNative(entries[k].1));
                    match self.declare_function(&entries[k].0, &native_body) {
                        Ok(_) => {},
                        Err(e) => {
                            return Err(e);
                        },
                    }
                    k = k + 1;
                }
                Ok(())
            },
            None => {
                let code = match host.read_source(library) {
                    Some(c) => c,
                    None => {
                        return Err(RuntimeError::ImportError(library.clone()));
                    },
                };
                let ltokens = match Lexer::lex(code) {
                    Ok(t) => t,
                    Err(_) => {
                        return Err(RuntimeError::ImportError(library.clone()));
                    },
                };
                let ptokens = match Parser::parse(ltokens, false) {
                    Ok(t) => t,
                    Err(_) => {
                        return Err(RuntimeError::ImportError(library.clone()));
                    },
                };
                if fuel == 0 {
                    return Err(RuntimeError::RecursionLimit);
                }
                self.exec_seq(&ptokens, host, fuel - 1)
            },
        }
    }

    /// Runs one instruction sequence: the heart of the machine.
    #[verifier::loop_isolation(false)]
    fn exec_seq<H: Host>(
        &mut self,
        tokens: &Vec<ParserToken>,
        host: &mut H,
        fuel: u64,
    ) -> (r: Result<(), RuntimeError>)
        requires
            st_inv(st_of(*old(self))),
        ensures
            st_inv(st_of(*final(self))),
            r is Ok ==> st_of(*final(self)).scopes.len() == st_of(*old(self)).scopes.len(),
            obeys_run(
                r,
                st_of(*final(self)),
                run_seq(fuel as nat, st_of(*old(self)), instr_views(tokens@)),
            ),
        decreases fuel, tokens@.len(), 2int,
    {
        let ghost prog = instr_views(tokens@);
        let ghost total = run_seq(fuel as nat, st_of(*old(self)), prog);
        proof {
            lemma_instr_views(tokens@);
        }
        proof {
            assert(prog.subrange(0, prog.len() as int) =~= prog);
        }
        let mut i: usize = 0;
        while i < tokens.len()
            invariant
                i <= tokens@.len(),
                st_inv(st_of(*self)),
                st_of(*self).scopes.len() == st_of(*old(self)).scopes.len(),
                total == run_seq(fuel as nat, st_of(*self), prog.subrange(i as int, prog.len() as int))
                    || total is Hosted,
            decreases tokens@.len() - i,
        {
            let ghost rest = prog.subrange(i as int, prog.len() as int);
            let ghost st_pre = st_of(*self);
            proof {
                assert(rest[0] == prog[i as int]);
                assert(rest.subrange(1, rest.len() as int) =~= prog.subrange(
                    i + 1 as int,
                    prog.len() as int,
                ));
            }
            let step_result: Result<(), RuntimeError> = match &tokens[i] {
                ParserToken::Push(v) => {
                    let c = v.clone();
                    self.push(c);
                    Ok(())
                },
                ParserToken::Pop => match self.pop() {
                    Ok(_) => Ok(()),
                    Err(e) => Err(e),
                },
                ParserToken::Call(func_name, fn_arg_tokens) => self.call_function(
                    func_name,
                    fn_arg_tokens,
                    host,
                    fuel,
                ),
                ParserToken::CallNative(handle) => host.call_native(*handle, &mut self.stack),
                ParserToken::GetVariable(var_name) => self.get_variable(var_name),
                ParserToken::DeclareVariable(var_name) => self.declare_variable(var_name),
                ParserToken::DeclareFunction(fn_name, fn_body) => self.declare_function(
                    fn_name,
                    fn_body,
                ),
                ParserToken::Operation(o) => self.op(o),
                ParserToken::Return => {
                    return Ok(());
                },
                ParserToken::MakeArray(arg_count) => self.make_array(*arg_count),
                ParserToken::GetArrayElement(expression) => self.get_array_element(
                    expression,
                    host,
                    fuel,
                ),
                ParserToken::GetVariableArrayElement(variable, expression) => self
                    .get_variable_array_element(variable, expression, host, fuel),
                ParserToken::StoreVariable(var_name) => self.store_variable(var_name),
                ParserToken::StoreVariableArrayElement(var_name) => self
                    .store_variable_array_element(var_name),
                ParserToken::If(true_body, false_body) => self.if_statement(
                    true_body,
                    false_body,
                    host,
                    fuel,
                ),
                ParserToken::While(check, body) => self.while_loop(check, body, host, fuel),
                ParserToken::Import(library) => self.import(library, host, fuel),
                ParserToken::Nop => Err(RuntimeError::UnsupportedInstruction),
            };
            proof {
                assert(obeys_step(
                    step_result,
                    st_of(*self),
                    step_instr(fuel as nat, st_pre, rest[0]),
                ));
            }
            match step_result {
                Ok(_) => {},
                Err(e) => {
                    return Err(e);
                },
            }
            self.last_op = tokens[i].clone();
            i = i + 1;
        }
        proof {
            assert(prog.subrange(tokens@.len() as int, prog.len() as int).len() == 0);
        }
        Ok(())
    }

    /// Runs a whole instruction sequence with the largest budget the
    /// machine can count; within that budget the outcome is exactly what
    /// the model prescribes, unless the run reaches the host.
    pub fn execute_tokens<H: Host>(&mut self, tokens: &Vec<ParserToken>, host: &mut H) -> (r:
        Result<(), RuntimeError>)
        requires
            st_inv(st_of(*old(self))),
        ensures
            st_inv(st_of(*final(self))),
            r is Ok ==> st_of(*final(self)).scopes.len() == st_of(*old(self)).scopes.len(),
            obeys_run(
                r,
                st_of(*final(self)),
                run_seq(u64::MAX as nat, st_of(*old(self)), instr_views(tokens@)),
            ),
    {
        self.exec_seq(tokens, host, u64::MAX)
    }

    /// The values on the stack, bottom first.
    pub fn stack_values(&self) -> (r: &Vec<Value>)
        ensures
            value_views(r@) == st_of(*self).stack,
    {
        &self.stack
    }

    /// The scope chain, innermost frame last.
    pub fn scopes(&self) -> (r: &Vec<Scope>)
        ensures
            scope_views(r@) == st_of(*self).scopes,
    {
        &self.variables
    }

    /// The last instruction that began executing, for the diagnostic dump.
    pub fn last_operation(&self) -> &ParserToken {
        &self.last_op
    }
}

} // verus!\n