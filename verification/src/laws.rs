//! Laws of the machine, stated and proved once over the execution model.
//!
//! Each of these holds for every input its statement admits; the
//! executable functions promise in their own contracts to follow the same
//! model, so the laws carry over to every execution.
use vstd::prelude::*;

use crate::interpreter::RtV;
use crate::interpreter::StateV;
use crate::interpreter::StepR;
use crate::interpreter::imported;
use crate::interpreter::ScopeV;
use crate::interpreter::sc_has;
use crate::interpreter::sc_set;
use crate::interpreter::spec_index;
use crate::interpreter::spec_pop;
use crate::interpreter::st_inv;
use crate::interpreter::step_instr;
use crate::parser::InstrV;
use crate::value::ValueE;
use crate::value::ValueV;
use crate::value::spec_div;
use crate::value::spec_modulo;
use crate::value::trunc_div;
use crate::value::trunc_rem;
use crate::value::truthy;

verus! {

/// Division and remainder follow the machine's truncating semantics: for
/// a nonzero right operand (apart from the one pair whose quotient
/// overflows), the results satisfy `m * q + r == n` with `|r| < |m|` and
/// a remainder that is zero or takes the sign of the left operand — which
/// characterises rounding toward zero.  A zero right operand fails with
/// division by zero, for both operators alike.
pub proof fn lemma_division_truncating(n: i64, m: i64)
    ensures
        m != 0 && !(n == i64::MIN && m == -1) ==> ({
            let q = trunc_div(n, m) as int;
            let r = trunc_rem(n, m) as int;
            &&& spec_div(ValueV::Int(n), ValueV::Int(m)) == Ok::<ValueV, ValueE>(
                ValueV::Int(trunc_div(n, m)),
            )
            &&& spec_modulo(ValueV::Int(n), ValueV::Int(m)) == Ok::<ValueV, ValueE>(
                ValueV::Int(trunc_rem(n, m)),
            )
            &&& m * q + r == n
            &&& (if m >= 0 {
                r < m
            } else {
                r < -m
            })
            &&& (if m >= 0 {
                -m < r
            } else {
                m < r
            })
            &&& (r == 0 || (r < 0 <==> n < 0))
        }),
        m == 0 ==> spec_div(ValueV::Int(n), ValueV::Int(m)) == Err::<ValueV, ValueE>(
            ValueE::DivisionByZero,
        ) && spec_modulo(ValueV::Int(n), ValueV::Int(m)) == Err::<ValueV, ValueE>(
            ValueE::DivisionByZero,
        ),
{
    if m != 0 && !(n == i64::MIN && m == -1) {
        let ni = n as int;
        let mi = m as int;
        let mag = if mi > 0 {
            mi
        } else {
            -mi
        };
        assert(mag <= 0x8000_0000_0000_0000);
        if n >= 0 {
            euclid_div_facts(ni, mi);
            let q0 = ni / mi;
            let r0 = ni % mi;
            assert(-ni <= q0 <= ni);
            assert(0 <= r0 < mag);
            assert(trunc_div(n, m) as int == q0);
            assert(trunc_rem(n, m) as int == r0);
        } else {
            let x = -ni;
            euclid_div_facts(x, mi);
            let q1 = x / mi;
            let r1 = x % mi;
            assert(0 <= r1 < mag);
            if x == 0x8000_0000_0000_0000 {
                assert(mi != -1);
                if mi < 0 {
                    assert(mag >= 2);
                    euclid_div_shrinks(x, mi);
                    assert(x / 2 == 0x4000_0000_0000_0000);
                    assert(q1 >= -0x4000_0000_0000_0000);
                }
            }
            assert(i64::MIN <= -q1 <= i64::MAX);
            assert(i64::MIN <= -r1 <= i64::MAX);
            assert(trunc_div(n, m) as int == -q1);
            assert(trunc_rem(n, m) as int == -r1);
            assert(mi * (-q1) + (-r1) == -(mi * q1 + r1)) by (nonlinear_arith);
        }
    }
}

/// For a nonnegative dividend, the Euclidean quotient and remainder
/// satisfy the fundamental identity, the remainder lies below the
/// divisor's magnitude, and the quotient's magnitude never exceeds the
/// dividend.
proof fn euclid_div_facts(x: int, d: int)
    requires
        x >= 0,
        d != 0,
    ensures
        x == d * (x / d) + (x % d),
        0 <= x % d < (if d > 0 {
            d
        } else {
            -d
        }),
        d > 0 ==> 0 <= x / d <= x,
        d < 0 ==> -x <= x / d <= 0,
{
    vstd::arithmetic::div_mod::lemma_fundamental_div_mod(x, d);
    if d > 0 {
        vstd::arithmetic::div_mod::lemma_mod_bound(x, d);
        let q = x / d;
        let r = x % d;
        assert(0 <= q <= x) by (nonlinear_arith)
            requires
                x == d * q + r,
                0 <= r < d,
                x >= 0,
                d >= 1,
        ;
    } else {
        let q = x / d;
        let r = x % d;
        assert(0 <= r < -d);
        assert(-x <= q <= 0) by (nonlinear_arith)
            requires
                x == d * q + r,
                0 <= r < -d,
                x >= 0,
                d <= -1,
        ;
    }
}

/// With a divisor of magnitude at least two, the Euclidean quotient of a
/// nonnegative dividend has at most half its magnitude.
proof fn euclid_div_shrinks(x: int, d: int)
    requires
        x >= 0,
        d != 0,
        (if d > 0 {
            d
        } else {
            -d
        }) >= 2,
    ensures
        d > 0 ==> x / d <= x / 2,
        d < 0 ==> x / d >= -(x / 2),
{
    euclid_div_facts(x, d);
    euclid_div_facts(x, 2);
    let q = x / d;
    let r = x % d;
    let q2 = x / 2;
    let r2 = x % 2;
    if d > 0 {
        assert(q <= q2) by (nonlinear_arith)
            requires
                x == d * q + r,
                x == 2 * q2 + r2,
                0 <= r < d,
                0 <= r2 < 2,
                0 <= q,
                0 <= q2,
                d >= 2,
        ;
    } else {
        assert(q >= -q2) by (nonlinear_arith)
            requires
                x == d * q + r,
                x == 2 * q2 + r2,
                0 <= r < -d,
                0 <= r2 < 2,
                q <= 0,
                0 <= q2,
                d <= -2,
        ;
    }
}

/// Indexing follows the bounds exactly: an integer index inside an array
/// yields that element; an index at or beyond the length, a non-integer
/// index and a non-array target all fail with an index error.
pub proof fn lemma_index_bounds(arr: ValueV, idx: ValueV)
    ensures
        arr is Array && idx is Int && 0 <= idx->Int_0 < arr->Array_0.len() ==> spec_index(arr, idx)
            == Ok::<ValueV, RtV>(arr->Array_0[idx->Int_0 as int]),
        arr is Array && idx is Int && !(0 <= idx->Int_0 < arr->Array_0.len()) ==> spec_index(
            arr,
            idx,
        ) == Err::<ValueV, RtV>(RtV::IndexError),
        !(idx is Int) || !(arr is Array) ==> spec_index(arr, idx) == Err::<ValueV, RtV>(
            RtV::IndexError,
        ),
{
}

/// Declaring a name twice in the same frame fails with a duplicate
/// binding; declaring a name that only an outer frame binds succeeds in
/// the fresh innermost frame, so distinct scopes never conflict.
pub proof fn lemma_duplicate_binding(fuel: nat, st: StateV, n: Seq<char>)
    requires
        st_inv(st),
        st.stack.len() > 0,
    ensures
        sc_has(st.scopes.last().vars, n) ==> step_instr(fuel, st, InstrV::DeclareVariable(n))
            == StepR::Failed(spec_pop(st)->Some_0.1, RtV::DuplicateBinding(n)),
        !sc_has(st.scopes.last().vars, n) ==> (step_instr(fuel, st, InstrV::DeclareVariable(n))
            matches StepR::Cont(st2) && st2.scopes.last().vars.last() == (n, st.stack.last())),
{
    let st1 = spec_pop(st)->Some_0.1;
    if !sc_has(st.scopes.last().vars, n) {
        assert(st1.scopes.last() == st.scopes.last());
    }
}

/// Re-assignment acts on the innermost frame that binds the name: with
/// every frame nearer than frame `i` not binding it, the popped value
/// lands in frame `i` and every other frame is untouched.
pub proof fn lemma_assignment_updates_innermost(fuel: nat, st: StateV, n: Seq<char>, i: int)
    requires
        st.stack.len() > 0,
        0 <= i < st.scopes.len(),
        sc_has(st.scopes[i].vars, n),
        forall|j: int| i < j < st.scopes.len() ==> !sc_has(#[trigger] st.scopes[j].vars, n),
    ensures
        step_instr(fuel, st, InstrV::StoreVariable(n)) matches StepR::Cont(st2) && st2.scopes
            == st.scopes.update(
            i,
            ScopeV { vars: sc_set(st.scopes[i].vars, n, st.stack.last()), ..st.scopes[i] },
        ) && st2.stack == st.stack.drop_last(),
{
    let v = st.stack.last();
    crate::interpreter::lemma_chain_frame(st.scopes, n, v, i);
}

/// Truthiness: zero integers, empty text, `false` and null are
/// false-like; any nonzero integer, non-empty text and `true` are
/// true-like.
pub proof fn lemma_truthiness()
    ensures
        !truthy(ValueV::Int(0)),
        !truthy(ValueV::Literal(Seq::empty())),
        forall|i: i64| i != 0 ==> truthy(ValueV::Int(i)),
        forall|s: Seq<char>| s.len() > 0 ==> truthy(ValueV::Literal(s)),
        truthy(ValueV::Boolean(true)),
        !truthy(ValueV::Boolean(false)),
        !truthy(ValueV::Null),
{
}

/// Re-importing an already imported name is a no-op: the state is
/// unchanged, so nothing registers or runs twice.
pub proof fn lemma_reimport_idempotent(fuel: nat, st: StateV, n: Seq<char>)
    requires
        imported(st.imports, n),
    ensures
        step_instr(fuel, st, InstrV::Import(n)) == StepR::Cont(st),
{
}

} // verus!
