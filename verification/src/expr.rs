//! The expression compiler: a token run, already isolated by its
//! terminator, becomes a flattened instruction sequence.
//!
//! The run is consumed from its right end by precedence climbing: parsing
//! at a level first exhausts all tighter-binding structure, then joins
//! operands of exactly that level, which chains same-precedence operators
//! left to right.  The resulting binary tree is flattened in left-subtree,
//! right-subtree, root order, so that operands always precede their
//! operator on the value stack.
//!
//! `spec_to_ast` gives the whole translation as one recursive function:
//! the flattened output together with the unconsumed rest of the run.
use vstd::prelude::*;

use crate::parser::InstrV;
use crate::parser::ParserToken;
use crate::parser::instr_views;
use crate::parser::instr_view;
use crate::parser::lemma_instr_views;

verus! {

broadcast use vstd::std_specs::vec::group_vec_axioms;

/// How tightly an operator binds; level 0 is loosest.  Parentheses and any
/// unrecognised operator take the sentinel level and act as a primary
/// boundary.
pub const MAX_PRECEDENCE: u8 = 7;

/// Errors of the expression compiler.  An expression run has no positions
/// of its own; the statement parser attaches them.
#[derive(Debug, Clone, Copy, PartialEq, Eq, Structural)]
pub enum ExprE {
    UnexpectedEnd,
    InvalidToken,
}

/// An internal node of the expression tree: a token with up to two
/// children.
#[derive(Debug)]
pub struct AstExpr {
    pub token: ParserToken,
    pub rhs: Option<Box<AstExpr>>,
    pub lhs: Option<Box<AstExpr>>,
}

/// The binding power of an operator's text.
pub open spec fn spec_precedence(op: Seq<char>) -> u8 {
    if op == "&&"@ || op == "||"@ {
        0
    } else if op == "<<"@ || op == ">>"@ {
        1
    } else if op == "<"@ || op == ">"@ {
        2
    } else if op == "=="@ || op == "!="@ {
        3
    } else if op == "+"@ || op == "-"@ {
        4
    } else if op == "*"@ || op == "/"@ || op == "%"@ {
        5
    } else if op == "!"@ {
        6
    } else {
        MAX_PRECEDENCE
    }
}

/// A token that can stand alone as an operand.
pub open spec fn is_primary(t: InstrV) -> bool {
    t is Push || t is GetVariable || t is Call || t is GetArrayElement
        || t is GetVariableArrayElement
}

/// Parsing a primary: the rightmost token of the run, as a leaf.
pub open spec fn spec_primary(input: Seq<InstrV>) -> Result<(Seq<InstrV>, Seq<InstrV>), ExprE> {
    if input.len() == 0 {
        Err(ExprE::UnexpectedEnd)
    } else if is_primary(input.last()) {
        Ok((seq![input.last()], input.drop_last()))
    } else {
        Err(ExprE::InvalidToken)
    }
}

/// Precedence climbing over the reversed run, fused with flattening: the
/// result is the flattened instruction sequence of the parsed operand and
/// the unconsumed rest of the run.
pub open spec fn spec_to_ast(input: Seq<InstrV>, prec: u8) -> Result<
    (Seq<InstrV>, Seq<InstrV>),
    ExprE,
>
    decreases input.len(), 7 - prec,
{
    if prec >= MAX_PRECEDENCE {
        spec_primary(input)
    } else {
        match spec_to_ast(input, (prec + 1) as u8) {
            Err(e) => Err(e),
            Ok((lf, rest)) => {
                if rest.len() == 0 {
                    Ok((lf, rest))
                } else {
                    let t = rest.last();
                    if !(t is Operation) {
                        Err(ExprE::InvalidToken)
                    } else if spec_precedence(t->Operation_0) == prec {
                        if rest.len() <= input.len() {
                            match spec_to_ast(rest.drop_last(), prec) {
                                Err(e) => Err(e),
                                Ok((rf, rest2)) => Ok((lf + rf + seq![t], rest2)),
                            }
                        } else {
                            // Never reached: the rest of a parse is part of
                            // its input (`lemma_to_ast_rest`).
                            Err(ExprE::UnexpectedEnd)
                        }
                    } else {
                        Ok((lf, rest))
                    }
                }
            },
        }
    }
}

/// The unconsumed rest of a parse is a suffix-part of its input: it never
/// grows.
pub proof fn lemma_to_ast_rest(input: Seq<InstrV>, prec: u8)
    ensures
        spec_to_ast(input, prec) matches Ok((f, rest)) ==> rest.len() <= input.len(),
    decreases input.len(), 7 - prec,
{
    if prec >= MAX_PRECEDENCE {
    } else {
        lemma_to_ast_rest(input, (prec + 1) as u8);
        match spec_to_ast(input, (prec + 1) as u8) {
            Err(_) => {},
            Ok((lf, rest)) => {
                if rest.len() > 0 && rest.last() is Operation && spec_precedence(
                    rest.last()->Operation_0,
                ) == prec && rest.len() <= input.len() {
                    lemma_to_ast_rest(rest.drop_last(), prec);
                }
            },
        }
    }
}

/// The whole compiler: an empty run stays empty, an array-literal run
/// (ending in its `MakeArray`) is already compiled, and any other run is
/// parsed from precedence level 0 and flattened.  Tokens left over after
/// the climb are dropped, as the climb consumes the run from the right.
pub open spec fn spec_evaluate(input: Seq<InstrV>) -> Result<Seq<InstrV>, ExprE> {
    if input.len() == 0 {
        Ok(Seq::empty())
    } else if input.last() is MakeArray {
        Ok(input)
    } else {
        match spec_to_ast(input, 0) {
            Err(e) => Err(e),
            Ok((flat, rest)) => Ok(flat),
        }
    }
}

/// The flattening of a tree: left subtree, right subtree, then the node's
/// own token.
pub open spec fn flatten(t: AstExpr) -> Seq<InstrV>
    decreases t,
{
    flatten_opt(t.lhs) + flatten_opt(t.rhs) + seq![t.token@]
}

pub open spec fn flatten_opt(o: Option<Box<AstExpr>>) -> Seq<InstrV>
    decreases o,
{
    match o {
        Some(b) => flatten(*b),
        None => Seq::empty(),
    }
}

impl AstExpr {
    /// A node from a token and its children.
    pub fn new(token: ParserToken, lhs: Option<Box<AstExpr>>, rhs: Option<Box<AstExpr>>) -> (r:
        AstExpr)
        ensures
            r.token == token,
            r.lhs == lhs,
            r.rhs == rhs,
    {
        AstExpr { token, lhs, rhs }
    }

    /// Compiles a token run to its flattened instruction sequence.
    pub fn evaluate(expr: Vec<ParserToken>) -> (r: Result<Vec<ParserToken>, ExprE>)
        ensures
            match r {
                Ok(out) => spec_evaluate(instr_views(expr@)) == Ok::<Seq<InstrV>, ExprE>(
                    instr_views(out@),
                ),
                Err(e) => spec_evaluate(instr_views(expr@)) == Err::<Seq<InstrV>, ExprE>(e),
            },
    {
        proof {
            lemma_instr_views(expr@);
        }
        let mut expr = expr;
        if expr.len() == 0 {
            proof {
                assert(instr_views(Seq::<ParserToken>::empty()) =~= Seq::<InstrV>::empty());
            }
            return Ok(Vec::new());
        }
        // An array literal is already compiled.
        if let Some(last) = expr.last() {
            if matches!(last, ParserToken::MakeArray(_)) {
                proof {
                    assert(instr_views(expr@).last() == instr_view(expr@.last()));
                }
                return Ok(expr);
            }
        }
        proof {
            assert(instr_views(expr@).last() == instr_view(expr@.last()));
        }
        match Self::to_ast(&mut expr, 0) {
            Ok(ast) => Ok(ast.to_tokens()),
            Err(e) => Err(e),
        }
    }

    /// Flattens this tree to instructions: left subtree, right subtree,
    /// root.
    #[verifier::loop_isolation(false)]
    pub fn to_tokens(&self) -> (r: Vec<ParserToken>)
        ensures
            instr_views(r@) == flatten(*self),
        decreases self,
    {
        let mut v: Vec<ParserToken> = Vec::new();
        proof {
            lemma_instr_views(v@);
            assert(instr_views(v@) =~= Seq::<InstrV>::empty());
        }

        if let Some(rhs) = &self.lhs {
            proof {
                assert(decreases_to!(*self => self.lhs));
            }
            let mut sub = rhs.to_tokens();
            let ghost pre = v@;
            append_vec(&mut v, sub);
            proof {
                assert(instr_views(v@) == flatten_opt(self.lhs));
            }
        }
        if let Some(lhs) = &self.rhs {
            proof {
                assert(decreases_to!(*self => self.rhs));
            }
            let mut sub = lhs.to_tokens();
            append_vec(&mut v, sub);
            proof {
                assert(instr_views(v@) == flatten_opt(self.lhs) + flatten_opt(self.rhs));
            }
        }
        proof {
            assert(instr_views(v@) == flatten_opt(self.lhs) + flatten_opt(self.rhs)) by {
                if self.lhs is None && self.rhs is None {
                    assert(instr_views(v@) =~= flatten_opt(self.lhs) + flatten_opt(self.rhs));
                } else if self.lhs is Some && self.rhs is None {
                    assert(instr_views(v@) =~= flatten_opt(self.lhs) + flatten_opt(self.rhs));
                } else if self.lhs is None && self.rhs is Some {
                    assert(instr_views(v@) =~= flatten_opt(self.lhs) + flatten_opt(self.rhs));
                }
            }
        }
        let t = self.token.clone();
        proof {
            crate::parser::lemma_instr_views_push(v@, t);
        }
        v.push(t);
        proof {
            assert(instr_views(v@) =~= flatten(*self));
        }
        v
    }

    /// A leaf of the expression tree: the rightmost token of the run,
    /// which must denote an operand.
    fn parse_primary(input: &mut Vec<ParserToken>) -> (r: Result<AstExpr, ExprE>)
        ensures
            match r {
                Ok(t) => spec_primary(instr_views(old(input)@)) == Ok::<
                    (Seq<InstrV>, Seq<InstrV>),
                    ExprE,
                >((flatten(t), instr_views(final(input)@))),
                Err(e) => spec_primary(instr_views(old(input)@)) == Err::<
                    (Seq<InstrV>, Seq<InstrV>),
                    ExprE,
                >(e) && final(input)@ == old(input)@,
            },
            final(input)@.len() <= old(input)@.len(),
    {
        proof {
            lemma_instr_views(input@);
        }
        let popped = input.pop();
        match popped {
            None => {
                proof {
                    assert(instr_views(old(input)@).len() == 0);
                }
                Err(ExprE::UnexpectedEnd)
            },
            Some(token) => {
                proof {
                    assert(old(input)@.last() == token);
                    assert(instr_views(old(input)@).last() == instr_view(token));
                    assert(instr_views(input@) =~= instr_views(old(input)@).drop_last()) by {
                        lemma_instr_views(input@);
                        lemma_instr_views(old(input)@);
                    }
                }
                let ok = matches!(
                    token,
                    ParserToken::Push(_) | ParserToken::GetVariable(_) | ParserToken::Call(_, _)
                        | ParserToken::GetArrayElement(_)
                        | ParserToken::GetVariableArrayElement(_, _)
                );
                if ok {
                    let leaf = AstExpr::new(token, None, None);
                    proof {
                        assert(flatten(leaf) =~= seq![instr_views(old(input)@).last()]);
                    }
                    Ok(leaf)
                } else {
                    // The popped token goes back: a failed parse leaves the
                    // run as it was.
                    input.push(token);
                    proof {
                        assert(input@ =~= old(input)@);
                    }
                    Err(ExprE::InvalidToken)
                }
            },
        }
    }

    /// Precedence climbing at level `prec` over the reversed run.
    fn to_ast(input: &mut Vec<ParserToken>, prec: u8) -> (r: Result<AstExpr, ExprE>)
        requires
            prec <= MAX_PRECEDENCE,
        ensures
            match r {
                Ok(t) => spec_to_ast(instr_views(old(input)@), prec) == Ok::<
                    (Seq<InstrV>, Seq<InstrV>),
                    ExprE,
                >((flatten(t), instr_views(final(input)@))),
                Err(e) => spec_to_ast(instr_views(old(input)@), prec) == Err::<
                    (Seq<InstrV>, Seq<InstrV>),
                    ExprE,
                >(e),
            },
            final(input)@.len() <= old(input)@.len(),
        decreases input@.len(), 7 - prec,
    {
        if prec >= MAX_PRECEDENCE {
            return Self::parse_primary(input);
        }
        let lhs = match Self::to_ast(input, prec + 1) {
            Ok(t) => t,
            Err(e) => {
                return Err(e);
            },
        };
        let ghost after_lhs = input@;
        proof {
            lemma_instr_views(old(input)@);
            lemma_instr_views(input@);
        }
        let token_opt = input.pop();
        match token_opt {
            None => {
                proof {
                    assert(instr_views(input@).len() == 0);
                }
                Ok(lhs)
            },
            Some(token) => {
                let ghost mid = input@.push(token);
                proof {
                    assert(mid =~= after_lhs);
                    crate::parser::lemma_instr_variants(token);
                    assert(instr_views(mid).last() == instr_view(token)) by {
                        lemma_instr_views(mid);
                    }
                    assert(instr_views(input@) =~= instr_views(mid).drop_last()) by {
                        lemma_instr_views(mid);
                        lemma_instr_views(input@);
                    }
                    lemma_instr_views(mid);
                }
                if !matches!(token, ParserToken::Operation(_)) {
                    return Err(ExprE::InvalidToken);
                }
                let p = get_precedence(&token);
                if p == prec {
                    let rhs = match Self::to_ast(input, prec) {
                        Ok(t) => t,
                        Err(e) => {
                            return Err(e);
                        },
                    };
                    proof {
                        lemma_to_ast_rest(instr_views(mid).drop_last(), prec);
                    }
                    let ghost tv = instr_view(token);
                    let node = AstExpr::new(
                        token,
                        Some(Box::new(lhs)),
                        Some(Box::new(rhs)),
                    );
                    proof {
                        assert(flatten(node) =~= flatten(lhs) + flatten(rhs) + seq![tv]);
                    }
                    Ok(node)
                } else {
                    input.push(token);
                    proof {
                        assert(input@ =~= mid);
                    }
                    Ok(lhs)
                }
            },
        }
    }
}

/// The binding power of an operation token.
pub fn get_precedence(tk: &ParserToken) -> (r: u8)
    requires
        tk@ is Operation,
    ensures
        r == spec_precedence(tk@->Operation_0),
{
    match tk {
        ParserToken::Operation(op) => {
            let s = op.as_str();
            if crate::strings::str_eq(s, "&&") || crate::strings::str_eq(s, "||") {
                0
            } else if crate::strings::str_eq(s, "<<") || crate::strings::str_eq(s, ">>") {
                1
            } else if crate::strings::str_eq(s, "<") || crate::strings::str_eq(s, ">") {
                2
            } else if crate::strings::str_eq(s, "==") || crate::strings::str_eq(s, "!=") {
                3
            } else if crate::strings::str_eq(s, "+") || crate::strings::str_eq(s, "-") {
                4
            } else if crate::strings::str_eq(s, "*") || crate::strings::str_eq(s, "/")
                || crate::strings::str_eq(s, "%") {
                5
            } else if crate::strings::str_eq(s, "!") {
                6
            } else {
                MAX_PRECEDENCE
            }
        },
        _ => {
            proof {
                crate::parser::lemma_instr_variants(*tk);
                assert(false);
            }
            0
        },
    }
}

/// Appends `sub` to `v`; the models concatenate.
pub fn append_vec(v: &mut Vec<ParserToken>, sub: Vec<ParserToken>)
    ensures
        final(v)@ == old(v)@ + sub@,
        instr_views(final(v)@) == instr_views(old(v)@) + instr_views(sub@),
{
    let mut sub = sub;
    let ghost s0 = sub@;
    v.append(&mut sub);
    proof {
        crate::parser::lemma_instr_views_concat(old(v)@, s0);
    }
}

} // verus!
