//! The dynamically typed value of the scripting language, together with the
//! mathematical model (`ValueV`) that every contract in the crate speaks of.
//!
//! Values carry deep-copy semantics: assignment, stack traffic and array
//! element access all copy.  Numbers are 64-bit signed integers; `+ - *`
//! wrap around on overflow, `/` and `%` follow the machine's truncating
//! division and report division by zero.
use vstd::prelude::*;

use crate::strings::chars_to_string;
use crate::strings::str_chars;
use crate::strings::str_eq;

verus! {

broadcast use vstd::std_specs::vec::group_vec_axioms;

/// Errors raised by operations on values.
#[derive(Debug, Clone, Copy, PartialEq, Eq, Structural)]
pub enum ValueE {
    ParsingError,
    TypeMismatch,
    UnkownOperation,
    DivisionByZero,
}

/// A value of the scripting language.  `Ptr` carries an opaque handle that
/// only native modules interpret; the core never looks inside it.
#[derive(Debug, PartialEq)]
pub enum Value {
    Int(i64),
    Literal(String),
    Boolean(bool),
    Array(Vec<Value>),
    Ptr(u64),
    Null,
}

/// Mathematical model of a `Value`: strings become character sequences and
/// arrays become sequences of models.
pub enum ValueV {
    Int(i64),
    Literal(Seq<char>),
    Boolean(bool),
    Array(Seq<ValueV>),
    Ptr(u64),
    Null,
}

pub open spec fn value_view(v: Value) -> ValueV
    decreases v,
{
    match v {
        Value::Int(i) => ValueV::Int(i),
        Value::Literal(s) => ValueV::Literal(s@),
        Value::Boolean(b) => ValueV::Boolean(b),
        Value::Array(vs) => ValueV::Array(value_views(vs@)),
        Value::Ptr(p) => ValueV::Ptr(p),
        Value::Null => ValueV::Null,
    }
}

pub open spec fn value_views(s: Seq<Value>) -> Seq<ValueV>
    decreases s,
{
    if s.len() == 0 {
        Seq::empty()
    } else {
        seq![value_view(s[0])] + value_views(s.subrange(1, s.len() as int))
    }
}

impl View for Value {
    type V = ValueV;

    open spec fn view(&self) -> ValueV {
        value_view(*self)
    }
}

/// The model of a sequence of values is the pointwise model.
pub proof fn lemma_value_views(s: Seq<Value>)
    ensures
        value_views(s).len() == s.len(),
        forall|i: int| 0 <= i < s.len() ==> value_views(s)[i] == value_view(s[i]),
    decreases s.len(),
{
    if s.len() > 0 {
        lemma_value_views(s.subrange(1, s.len() as int));
    }
}

pub proof fn lemma_value_views_push(s: Seq<Value>, v: Value)
    ensures
        value_views(s.push(v)) == value_views(s).push(value_view(v)),
    decreases s.len(),
{
    lemma_value_views(s.push(v));
    lemma_value_views(s);
    assert(value_views(s.push(v)) =~= value_views(s).push(value_view(v)));
}

/// The model of a `Result` of an operation.
pub open spec fn res_view(r: Result<Value, ValueE>) -> Result<ValueV, ValueE> {
    match r {
        Ok(v) => Ok(v@),
        Err(e) => Err(e),
    }
}

/// Truthiness: zero integers, empty strings, `false`, `Null` and null
/// handles are false-like; everything else (except arrays, on which
/// truthiness is not defined) is true-like.
pub open spec fn truthy(v: ValueV) -> bool {
    match v {
        ValueV::Int(i) => i != 0,
        ValueV::Literal(s) => s.len() != 0,
        ValueV::Boolean(b) => b,
        ValueV::Null => false,
        ValueV::Ptr(p) => p != 0,
        ValueV::Array(_) => false,
    }
}

// ---------------------------------------------------------------------------
// Decimal rendering
// ---------------------------------------------------------------------------
pub open spec fn dec_digit(d: u64) -> char {
    (48 + d % 10) as u8 as char
}

/// Decimal digits of an unsigned number, most significant first.
pub open spec fn u64_dec(n: u64) -> Seq<char>
    decreases n,
{
    if n < 10 {
        seq![dec_digit(n)]
    } else {
        u64_dec(n / 10) + seq![dec_digit(n % 10)]
    }
}

/// Decimal rendering of a signed number.
pub open spec fn i64_dec(i: i64) -> Seq<char> {
    if i >= 0 {
        u64_dec(i as u64)
    } else {
        seq!['-'] + u64_dec((((-(i + 1)) as u64) + 1) as u64)
    }
}

/// The text that `to_string` produces for a value.
pub open spec fn val_chars(v: ValueV) -> Seq<char>
    decreases v, 0int,
{
    match v {
        ValueV::Int(i) => i64_dec(i),
        ValueV::Literal(s) => s,
        ValueV::Boolean(b) => if b {
            "true"@
        } else {
            "false"@
        },
        ValueV::Null => "null"@,
        ValueV::Ptr(p) => u64_dec(p),
        ValueV::Array(vs) => if vs.len() == 0 {
            "[]"@
        } else {
            seq!['['] + val_chars_join_from(vs, 0) + seq![']']
        },
    }
}

/// Array elements from position `i` on, rendered and joined with commas.
pub open spec fn val_chars_join_from(vs: Seq<ValueV>, i: int) -> Seq<char>
    decreases vs, vs.len() - i,
{
    if i < 0 || i >= vs.len() {
        Seq::empty()
    } else if i + 1 == vs.len() {
        val_chars(vs[i])
    } else {
        val_chars(vs[i]) + seq![','] + val_chars_join_from(vs, i + 1)
    }
}

// ---------------------------------------------------------------------------
// Truncating division
// ---------------------------------------------------------------------------
/// Quotient of truncating (round toward zero) division, as the machine
/// computes it, written over the Euclidean `/` of the specification
/// language; the one overflowing case wraps.
pub open spec fn trunc_div(a: i64, b: i64) -> i64 {
    if a == i64::MIN && b == -1 {
        i64::MIN
    } else if a >= 0 {
        ((a as int) / (b as int)) as i64
    } else {
        (-((-(a as int)) / (b as int))) as i64
    }
}

/// Remainder paired with `trunc_div`: it has the sign of the left operand;
/// the one overflowing case yields 0.
pub open spec fn trunc_rem(a: i64, b: i64) -> i64 {
    if a == i64::MIN && b == -1 {
        0
    } else if a >= 0 {
        ((a as int) % (b as int)) as i64
    } else {
        (-((-(a as int)) % (b as int))) as i64
    }
}

// ---------------------------------------------------------------------------
// Binary operators
// ---------------------------------------------------------------------------
/// `+`: integer addition (wrapping) or string concatenation.
pub open spec fn spec_add(a: ValueV, b: ValueV) -> Result<ValueV, ValueE> {
    match b {
        ValueV::Int(rb) => match a {
            ValueV::Int(la) => Ok(ValueV::Int(vstd::wrapping::i64_specs::wrapping_add(la, rb))),
            _ => Err(ValueE::TypeMismatch),
        },
        ValueV::Literal(sb) => match a {
            ValueV::Literal(sa) => Ok(ValueV::Literal(sa + sb)),
            _ => Err(ValueE::UnkownOperation),
        },
        _ => Err(ValueE::TypeMismatch),
    }
}

/// `-`: integer subtraction (wrapping).
pub open spec fn spec_sub(a: ValueV, b: ValueV) -> Result<ValueV, ValueE> {
    match b {
        ValueV::Int(rb) => match a {
            ValueV::Int(la) => Ok(ValueV::Int(vstd::wrapping::i64_specs::wrapping_sub(la, rb))),
            _ => Err(ValueE::TypeMismatch),
        },
        ValueV::Literal(_) => Err(ValueE::UnkownOperation),
        _ => Err(ValueE::TypeMismatch),
    }
}

/// `*`: integer multiplication (wrapping).
pub open spec fn spec_mul(a: ValueV, b: ValueV) -> Result<ValueV, ValueE> {
    match b {
        ValueV::Int(rb) => match a {
            ValueV::Int(la) => Ok(ValueV::Int(vstd::wrapping::i64_specs::wrapping_mul(la, rb))),
            _ => Err(ValueE::TypeMismatch),
        },
        ValueV::Literal(_) => Err(ValueE::UnkownOperation),
        _ => Err(ValueE::TypeMismatch),
    }
}

/// `/`: truncating integer division; a zero right operand is an error.
pub open spec fn spec_div(a: ValueV, b: ValueV) -> Result<ValueV, ValueE> {
    match b {
        ValueV::Int(rb) => match a {
            ValueV::Int(la) => if rb == 0 {
                Err(ValueE::DivisionByZero)
            } else {
                Ok(ValueV::Int(trunc_div(la, rb)))
            },
            _ => Err(ValueE::TypeMismatch),
        },
        ValueV::Literal(_) => Err(ValueE::UnkownOperation),
        _ => Err(ValueE::TypeMismatch),
    }
}

/// `%`: remainder of truncating division; a zero right operand is an error.
pub open spec fn spec_modulo(a: ValueV, b: ValueV) -> Result<ValueV, ValueE> {
    match b {
        ValueV::Int(rb) => match a {
            ValueV::Int(la) => if rb == 0 {
                Err(ValueE::DivisionByZero)
            } else {
                Ok(ValueV::Int(trunc_rem(la, rb)))
            },
            _ => Err(ValueE::TypeMismatch),
        },
        ValueV::Literal(_) => Err(ValueE::UnkownOperation),
        _ => Err(ValueE::TypeMismatch),
    }
}

/// `<` on integers.
pub open spec fn spec_less_than(a: ValueV, b: ValueV) -> Result<ValueV, ValueE> {
    match b {
        ValueV::Int(rb) => match a {
            ValueV::Int(la) => Ok(ValueV::Boolean(la < rb)),
            _ => Err(ValueE::TypeMismatch),
        },
        ValueV::Literal(_) => Err(ValueE::UnkownOperation),
        _ => Err(ValueE::TypeMismatch),
    }
}

/// `>` on integers.
pub open spec fn spec_greater_than(a: ValueV, b: ValueV) -> Result<ValueV, ValueE> {
    match b {
        ValueV::Int(rb) => match a {
            ValueV::Int(la) => Ok(ValueV::Boolean(la > rb)),
            _ => Err(ValueE::TypeMismatch),
        },
        ValueV::Literal(_) => Err(ValueE::UnkownOperation),
        _ => Err(ValueE::TypeMismatch),
    }
}

/// The whole binary-operator table: arithmetic, comparisons, structural
/// equality and truthiness connectives, keyed by the operator's text.
pub open spec fn spec_binop(op: Seq<char>, a: ValueV, b: ValueV) -> Result<ValueV, ValueE> {
    if op == "+"@ {
        spec_add(a, b)
    } else if op == "-"@ {
        spec_sub(a, b)
    } else if op == "*"@ {
        spec_mul(a, b)
    } else if op == "/"@ {
        spec_div(a, b)
    } else if op == "%"@ {
        spec_modulo(a, b)
    } else if op == "<"@ {
        spec_less_than(a, b)
    } else if op == ">"@ {
        spec_greater_than(a, b)
    } else if op == "=="@ {
        Ok(ValueV::Boolean(a == b))
    } else if op == "!="@ {
        Ok(ValueV::Boolean(a != b))
    } else if op == "&&"@ {
        if a is Array || b is Array {
            Err(ValueE::TypeMismatch)
        } else {
            Ok(ValueV::Boolean(truthy(a) && truthy(b)))
        }
    } else if op == "||"@ {
        if a is Array || b is Array {
            Err(ValueE::TypeMismatch)
        } else {
            Ok(ValueV::Boolean(truthy(a) || truthy(b)))
        }
    } else {
        Err(ValueE::UnkownOperation)
    }
}

// ---------------------------------------------------------------------------
// Word classification (numeric / boolean / null literals)
// ---------------------------------------------------------------------------
pub open spec fn is_dec_digit(c: char) -> bool {
    '0' <= c && c <= '9'
}

pub open spec fn digit_val(c: char) -> int {
    c as int - 48
}

/// Numeric value of a digit string, most significant digit first.
pub open spec fn digits_val(w: Seq<char>) -> int
    decreases w.len(),
{
    if w.len() == 0 {
        0
    } else {
        digits_val(w.subrange(0, w.len() - 1)) * 10 + digit_val(w[w.len() - 1])
    }
}

pub open spec fn all_dec_digits(w: Seq<char>) -> bool {
    forall|i: int| 0 <= i < w.len() ==> is_dec_digit(w[i])
}

/// The signed 64-bit integer a word denotes, if it is a well-formed decimal
/// numeral (optional sign, at least one digit, value in range).
pub open spec fn word_int(w: Seq<char>) -> Option<i64> {
    let neg = w.len() > 0 && w[0] == '-';
    let signed = w.len() > 0 && (w[0] == '-' || w[0] == '+');
    let ds = if signed {
        w.subrange(1, w.len() as int)
    } else {
        w
    };
    if ds.len() > 0 && all_dec_digits(ds) {
        let m = digits_val(ds);
        if neg && -m >= i64::MIN {
            Some((-m) as i64)
        } else if !neg && m <= i64::MAX {
            Some(m as i64)
        } else {
            None
        }
    } else {
        None
    }
}

/// What `Value::parse` makes of a word: an integer numeral, one of the
/// keyword literals `true`, `false`, `null`, or a parsing error.
pub open spec fn spec_parse_word(w: Seq<char>) -> Result<ValueV, ValueE> {
    if word_int(w) is Some {
        Ok(ValueV::Int(word_int(w)->0))
    } else if w == "true"@ {
        Ok(ValueV::Boolean(true))
    } else if w == "false"@ {
        Ok(ValueV::Boolean(false))
    } else if w == "null"@ {
        Ok(ValueV::Null)
    } else {
        Err(ValueE::ParsingError)
    }
}

impl Clone for Value {
    /// Deep copy; the model is preserved exactly.
    #[verifier::loop_isolation(false)]
    fn clone(&self) -> (res: Self)
        ensures
            res@ == self@,
        decreases self,
    {
        match self {
            Value::Int(i) => Value::Int(*i),
            Value::Literal(s) => Value::Literal(s.clone()),
            Value::Boolean(b) => Value::Boolean(*b),
            Value::Array(vs) => {
                let mut out: Vec<Value> = Vec::new();
                let mut i: usize = 0;
                while i < vs.len()
                    invariant
                        i <= vs.len(),
                        out@.len() == i as int,
                        forall|j: int| 0 <= j < i as int ==> out@[j]@ == vs@[j]@,
                    decreases vs.len() - i,
                {
                    proof {
                        assert(decreases_to!(*self => (*self)->Array_0@[i as int]));
                        assert((*self)->Array_0@ == vs@);
                    }
                    let c = vs[i].clone();
                    out.push(c);
                    i = i + 1;
                }
                proof {
                    lemma_value_views(out@);
                    lemma_value_views(vs@);
                    assert(value_views(out@) =~= value_views(vs@));
                }
                Value::Array(out)
            },
            Value::Ptr(p) => Value::Ptr(*p),
            Value::Null => Value::Null,
        }
    }
}

/// The model's constructor always mirrors the value's.
pub proof fn lemma_view_variants(v: Value)
    ensures
        v is Int <==> v@ is Int,
        v is Literal <==> v@ is Literal,
        v is Boolean <==> v@ is Boolean,
        v is Array <==> v@ is Array,
        v is Ptr <==> v@ is Ptr,
        v is Null <==> v@ is Null,
{
}

/// Structural equality of two values, the meaning of the script-level `==`.
#[verifier::loop_isolation(false)]
pub fn value_eq(a: &Value, b: &Value) -> (r: bool)
    ensures
        r == (a@ == b@),
    decreases a,
{
    proof {
        lemma_view_variants(*a);
        lemma_view_variants(*b);
    }
    match a {
        Value::Int(x) => match b {
            Value::Int(y) => *x == *y,
            _ => false,
        },
        Value::Literal(x) => match b {
            Value::Literal(y) => str_eq(x.as_str(), y.as_str()),
            _ => false,
        },
        Value::Boolean(x) => match b {
            Value::Boolean(y) => *x == *y,
            _ => false,
        },
        Value::Ptr(x) => match b {
            Value::Ptr(y) => *x == *y,
            _ => false,
        },
        Value::Null => match b {
            Value::Null => true,
            _ => false,
        },
        Value::Array(xs) => match b {
            Value::Array(ys) => {
                proof {
                    lemma_value_views(xs@);
                    lemma_value_views(ys@);
                    assert(a@ == ValueV::Array(value_views(xs@)));
                    assert(b@ == ValueV::Array(value_views(ys@)));
                }
                if xs.len() != ys.len() {
                    return false;
                }
                let mut i: usize = 0;
                while i < xs.len()
                    invariant
                        i <= xs.len(),
                        xs@.len() == ys@.len(),
                        a@ == ValueV::Array(value_views(xs@)),
                        b@ == ValueV::Array(value_views(ys@)),
                        forall|j: int| 0 <= j < i as int ==> xs@[j]@ == ys@[j]@,
                        value_views(xs@).len() == xs@.len(),
                        value_views(ys@).len() == ys@.len(),
                        forall|j: int| 0 <= j < xs@.len() ==> value_views(xs@)[j] == xs@[j]@,
                        forall|j: int| 0 <= j < ys@.len() ==> value_views(ys@)[j] == ys@[j]@,
                    decreases xs.len() - i,
                {
                    proof {
                        assert(decreases_to!(*a => (*a)->Array_0@[i as int]));
                        assert((*a)->Array_0@ == xs@);
                    }
                    if !value_eq(&xs[i], &ys[i]) {
                        proof {
                            assert(value_views(xs@)[i as int] != value_views(ys@)[i as int]);
                        }
                        return false;
                    }
                    i = i + 1;
                }
                proof {
                    assert(value_views(xs@) =~= value_views(ys@));
                }
                true
            },
            _ => false,
        },
    }
}

fn u64_to_dec(n: u64) -> (v: Vec<char>)
    ensures
        v@ == u64_dec(n),
    decreases n,
{
    if n < 10 {
        let c = (48 + (n % 10)) as u8 as char;
        let mut v: Vec<char> = Vec::new();
        v.push(c);
        proof {
            assert(v@ =~= u64_dec(n));
        }
        v
    } else {
        let mut v = u64_to_dec(n / 10);
        let c = (48 + (n % 10)) as u8 as char;
        v.push(c);
        proof {
            assert(v@ =~= u64_dec(n));
        }
        v
    }
}

#[verifier::loop_isolation(false)]
fn i64_to_dec(i: i64) -> (v: Vec<char>)
    ensures
        v@ == i64_dec(i),
{
    if i >= 0 {
        u64_to_dec(i as u64)
    } else {
        let mag: u64 = ((-(i + 1)) as u64) + 1;
        let mut v: Vec<char> = Vec::new();
        v.push('-');
        let mut ds = u64_to_dec(mag);
        let mut k: usize = 0;
        while k < ds.len()
            invariant
                k <= ds.len(),
                ds@ == u64_dec(mag),
                v@ == seq!['-'] + ds@.subrange(0, k as int),
            decreases ds.len() - k,
        {
            let c = ds[k];
            v.push(c);
            proof {
                assert(v@ =~= seq!['-'] + ds@.subrange(0, k + 1 as int));
            }
            k = k + 1;
        }
        proof {
            assert(ds@.subrange(0, ds@.len() as int) =~= ds@);
            assert(v@ == i64_dec(i));
        }
        v
    }
}

impl Value {
    /// Classifies a word as an integer, boolean or null literal.
    /// String literals are not handled here; the tokenizer collects those.
    pub fn parse(s: &String) -> (r: Result<Value, ValueE>)
        ensures
            res_view(r) == spec_parse_word(s@),
    {
        let w = str_chars(s.as_str());
        match parse_i64_chars(&w) {
            Some(i) => Ok(Value::Int(i)),
            None => {
                if str_eq(s.as_str(), "true") {
                    Ok(Value::Boolean(true))
                } else if str_eq(s.as_str(), "false") {
                    Ok(Value::Boolean(false))
                } else if str_eq(s.as_str(), "null") {
                    Ok(Value::Null)
                } else {
                    Err(ValueE::ParsingError)
                }
            },
        }
    }

    /// Truthiness of a value; not defined on arrays.
    pub fn is_true(&self) -> (r: bool)
        requires
            !(self@ is Array),
        ensures
            r == truthy(self@),
    {
        match self {
            Value::Int(value) => *value != 0,
            Value::Literal(literal) => literal.as_str().unicode_len() != 0,
            Value::Boolean(value) => *value,
            Value::Null => false,
            Value::Ptr(ptr) => *ptr != 0,
            Value::Array(_) => false,
        }
    }

    /// Applies the binary operator named `op` with `self` as the left
    /// operand, following the operator table exactly.
    pub fn do_operation(&self, op: &String, other: Value) -> (r: Result<Value, ValueE>)
        ensures
            res_view(r) == spec_binop(op@, self@, other@),
    {
        if str_eq(op.as_str(), "+") {
            self.add(other)
        } else if str_eq(op.as_str(), "-") {
            self.sub(other)
        } else if str_eq(op.as_str(), "*") {
            self.mul(other)
        } else if str_eq(op.as_str(), "/") {
            self.div(other)
        } else if str_eq(op.as_str(), "%") {
            self.modulo(other)
        } else if str_eq(op.as_str(), "<") {
            self.less_than(other)
        } else if str_eq(op.as_str(), ">") {
            self.greater_than(other)
        } else if str_eq(op.as_str(), "==") {
            Ok(Value::Boolean(value_eq(self, &other)))
        } else if str_eq(op.as_str(), "!=") {
            Ok(Value::Boolean(!value_eq(self, &other)))
        } else if str_eq(op.as_str(), "&&") {
            if matches!(self, Value::Array(_)) || matches!(other, Value::Array(_)) {
                Err(ValueE::TypeMismatch)
            } else {
                Ok(Value::Boolean(self.is_true() && other.is_true()))
            }
        } else if str_eq(op.as_str(), "||") {
            if matches!(self, Value::Array(_)) || matches!(other, Value::Array(_)) {
                Err(ValueE::TypeMismatch)
            } else {
                Ok(Value::Boolean(self.is_true() || other.is_true()))
            }
        } else {
            Err(ValueE::UnkownOperation)
        }
    }

    /// Renders the value as text.
    #[verifier::loop_isolation(false)]
    pub fn to_string(&self) -> (r: String)
        ensures
            r@ == val_chars(self@),
        decreases self,
    {
        match self {
            Value::Int(i) => {
                let v = i64_to_dec(*i);
                chars_to_string(&v)
            },
            Value::Literal(s) => s.clone(),
            Value::Boolean(b) => {
                if *b {
                    String::from_str("true")
                } else {
                    String::from_str("false")
                }
            },
            Value::Null => String::from_str("null"),
            Value::Ptr(p) => {
                let v = u64_to_dec(*p);
                chars_to_string(&v)
            },
            Value::Array(vs) => {
                proof {
                    lemma_value_views(vs@);
                }
                if vs.len() == 0 {
                    String::from_str("[]")
                } else {
                    let ghost m = value_views(vs@);
                    let mut out: Vec<char> = Vec::new();
                    out.push('[');
                    let mut i: usize = 0;
                    while i < vs.len()
                        invariant
                            i <= vs.len(),
                            0 < vs@.len(),
                            m == value_views(vs@),
                            m.len() == vs@.len(),
                            forall|j: int| 0 <= j < vs@.len() ==> m[j] == vs@[j]@,
                            out@ + val_chars_join_from(m, i as int) == seq!['[']
                                + val_chars_join_from(m, 0),
                        decreases vs.len() - i,
                    {
                        proof {
                            assert(decreases_to!(*self => (*self)->Array_0@[i as int]));
                            assert((*self)->Array_0@ == vs@);
                        }
                        let piece = vs[i].to_string();
                        let pv = str_chars(piece.as_str());
                        let mut k: usize = 0;
                        let ghost out0 = out@;
                        while k < pv.len()
                            invariant
                                k <= pv.len(),
                                pv@ == val_chars(vs@[i as int]@),
                                i < vs@.len(),
                                out@ == out0 + pv@.subrange(0, k as int),
                            decreases pv.len() - k,
                        {
                            let c = pv[k];
                            out.push(c);
                            proof {
                                assert(out@ =~= out0 + pv@.subrange(0, k + 1 as int));
                            }
                            k = k + 1;
                        }
                        proof {
                            assert(pv@.subrange(0, pv@.len() as int) =~= pv@);
                            assert(out@ == out0 + val_chars(m[i as int]));
                        }
                        if i + 1 < vs.len() {
                            out.push(',');
                            proof {
                                assert(out0 + (val_chars(m[i as int]) + seq![',']
                                    + val_chars_join_from(m, i + 1)) =~= (out0 + val_chars(
                                    m[i as int],
                                )).push(',') + val_chars_join_from(m, i + 1));
                            }
                        } else {
                            proof {
                                assert(out0 + (val_chars(m[i as int]) + val_chars_join_from(
                                    m,
                                    i + 1,
                                )) =~= out0 + val_chars(m[i as int]) + val_chars_join_from(
                                    m,
                                    i + 1,
                                ));
                                assert(val_chars_join_from(m, i + 1) =~= Seq::<char>::empty());
                                assert(out0 + val_chars(m[i as int]) + Seq::<char>::empty() =~= out0
                                    + val_chars(m[i as int]));
                            }
                        }
                        i = i + 1;
                    }
                    out.push(']');
                    proof {
                        assert(val_chars_join_from(m, vs@.len() as int) =~= Seq::<char>::empty());
                        assert(out@ =~= seq!['['] + val_chars_join_from(m, 0) + seq![']']);
                    }
                    chars_to_string(&out)
                }
            },
        }
    }

    /// The string a `Literal` holds.
    pub fn literal(&self) -> (r: String)
        requires
            self@ is Literal,
        ensures
            r@ == self@->Literal_0,
    {
        match self {
            Value::Literal(s) => s.clone(),
            _ => {
                proof {
                    assert(false);
                }
                String::new()
            },
        }
    }

    /// The integer an `Int` holds.
    pub fn int_value(&self) -> (r: i64)
        requires
            self@ is Int,
        ensures
            r == self@->Int_0,
    {
        match self {
            Value::Int(i) => *i,
            _ => {
                proof {
                    assert(false);
                }
                0
            },
        }
    }

    /// The handle a `Ptr` holds.
    pub fn ptr(&self) -> (r: u64)
        requires
            self@ is Ptr,
        ensures
            r == self@->Ptr_0,
    {
        match self {
            Value::Ptr(p) => *p,
            _ => {
                proof {
                    assert(false);
                }
                0
            },
        }
    }

    /// Left operand of `+`.
    pub fn add(&self, rhs: Value) -> (r: Result<Value, ValueE>)
        ensures
            res_view(r) == spec_add(self@, rhs@),
    {
        match (self, &rhs) {
            (Value::Int(la), Value::Int(rb)) => Ok(Value::Int(la.wrapping_add(*rb))),
            (Value::Literal(sa), Value::Literal(sb)) => {
                let mut s = sa.clone();
                s.append(sb.as_str());
                Ok(Value::Literal(s))
            },
            (_, Value::Int(_)) => Err(ValueE::TypeMismatch),
            (_, Value::Literal(_)) => Err(ValueE::UnkownOperation),
            _ => Err(ValueE::TypeMismatch),
        }
    }

    /// Left operand of `-`.
    pub fn sub(&self, rhs: Value) -> (r: Result<Value, ValueE>)
        ensures
            res_view(r) == spec_sub(self@, rhs@),
    {
        match (self, &rhs) {
            (Value::Int(la), Value::Int(rb)) => Ok(Value::Int(la.wrapping_sub(*rb))),
            (_, Value::Int(_)) => Err(ValueE::TypeMismatch),
            (_, Value::Literal(_)) => Err(ValueE::UnkownOperation),
            _ => Err(ValueE::TypeMismatch),
        }
    }

    /// Left operand of `*`.
    pub fn mul(&self, rhs: Value) -> (r: Result<Value, ValueE>)
        ensures
            res_view(r) == spec_mul(self@, rhs@),
    {
        match (self, &rhs) {
            (Value::Int(la), Value::Int(rb)) => Ok(Value::Int(la.wrapping_mul(*rb))),
            (_, Value::Int(_)) => Err(ValueE::TypeMismatch),
            (_, Value::Literal(_)) => Err(ValueE::UnkownOperation),
            _ => Err(ValueE::TypeMismatch),
        }
    }

    /// Left operand of `/`.
    pub fn div(&self, rhs: Value) -> (r: Result<Value, ValueE>)
        ensures
            res_view(r) == spec_div(self@, rhs@),
    {
        match (self, &rhs) {
            (Value::Int(la), Value::Int(rb)) => {
                if *rb == 0 {
                    Err(ValueE::DivisionByZero)
                } else if *la == i64::MIN && *rb == -1 {
                    Ok(Value::Int(i64::MIN))
                } else {
                    let q = *la / *rb;
                    proof {
                        assert(q == trunc_div(*la, *rb));
                    }
                    Ok(Value::Int(q))
                }
            },
            (_, Value::Int(_)) => Err(ValueE::TypeMismatch),
            (_, Value::Literal(_)) => Err(ValueE::UnkownOperation),
            _ => Err(ValueE::TypeMismatch),
        }
    }

    /// Left operand of `%`.
    pub fn modulo(&self, rhs: Value) -> (r: Result<Value, ValueE>)
        ensures
            res_view(r) == spec_modulo(self@, rhs@),
    {
        match (self, &rhs) {
            (Value::Int(la), Value::Int(rb)) => {
                if *rb == 0 {
                    Err(ValueE::DivisionByZero)
                } else if *la == i64::MIN && *rb == -1 {
                    Ok(Value::Int(0))
                } else {
                    let q = *la % *rb;
                    proof {
                        assert(q == trunc_rem(*la, *rb));
                    }
                    Ok(Value::Int(q))
                }
            },
            (_, Value::Int(_)) => Err(ValueE::TypeMismatch),
            (_, Value::Literal(_)) => Err(ValueE::UnkownOperation),
            _ => Err(ValueE::TypeMismatch),
        }
    }

    /// Left operand of `<`.
    pub fn less_than(&self, rhs: Value) -> (r: Result<Value, ValueE>)
        ensures
            res_view(r) == spec_less_than(self@, rhs@),
    {
        match (self, &rhs) {
            (Value::Int(la), Value::Int(rb)) => Ok(Value::Boolean(*la < *rb)),
            (_, Value::Int(_)) => Err(ValueE::TypeMismatch),
            (_, Value::Literal(_)) => Err(ValueE::UnkownOperation),
            _ => Err(ValueE::TypeMismatch),
        }
    }

    /// Left operand of `>`.
    pub fn greater_than(&self, rhs: Value) -> (r: Result<Value, ValueE>)
        ensures
            res_view(r) == spec_greater_than(self@, rhs@),
    {
        match (self, &rhs) {
            (Value::Int(la), Value::Int(rb)) => Ok(Value::Boolean(*la > *rb)),
            (_, Value::Int(_)) => Err(ValueE::TypeMismatch),
            (_, Value::Literal(_)) => Err(ValueE::UnkownOperation),
            _ => Err(ValueE::TypeMismatch),
        }
    }
}

// ---------------------------------------------------------------------------
// Integer-literal parsing
// ---------------------------------------------------------------------------
/// A digit string's value never shrinks as digits are appended, and is
/// never negative.
proof fn lemma_digits_val_grows(w: Seq<char>, k: int)
    requires
        all_dec_digits(w),
        0 <= k <= w.len(),
    ensures
        0 <= digits_val(w.subrange(0, k)),
        digits_val(w.subrange(0, k)) <= digits_val(w),
    decreases w.len(),
{
    if w.len() == 0 {
        assert(w.subrange(0, k) =~= w);
    } else if k == w.len() {
        assert(w.subrange(0, k) =~= w);
        let head = w.subrange(0, w.len() - 1);
        assert(all_dec_digits(head));
        lemma_digits_val_grows(head, head.len() as int);
        assert(head.subrange(0, head.len() as int) =~= head);
    } else {
        let head = w.subrange(0, w.len() - 1);
        assert(all_dec_digits(head));
        assert(w.subrange(0, k) =~= head.subrange(0, k));
        lemma_digits_val_grows(head, k);
        lemma_digits_val_grows(head, head.len() as int);
        assert(head.subrange(0, head.len() as int) =~= head);
        assert(digits_val(w) == digits_val(head) * 10 + digit_val(w[w.len() - 1]));
        assert(0 <= digit_val(w[w.len() - 1]));
        assert(digits_val(head) <= digits_val(head) * 10) by (nonlinear_arith)
            requires
                0 <= digits_val(head),
        ;
    }
}

#[verifier::loop_isolation(false)]
fn parse_i64_chars(w: &Vec<char>) -> (r: Option<i64>)
    ensures
        r == word_int(w@),
{
    if w.len() == 0 {
        return None;
    }
    let first = w[0];
    let neg = first == '-';
    let start: usize = if first == '-' || first == '+' {
        1
    } else {
        0
    };
    if start == w.len() {
        return None;
    }
    let ghost ds = if start == 1 {
        w@.subrange(1, w@.len() as int)
    } else {
        w@
    };
    let limit: u64 = if neg {
        9223372036854775808u64
    } else {
        9223372036854775807u64
    };
    let mut mag: u64 = 0;
    let mut i: usize = start;
    while i < w.len()
        invariant
            start <= i <= w@.len(),
            start == 0 || start == 1,
            ds == if start == 1 {
                w@.subrange(1, w@.len() as int)
            } else {
                w@
            },
            ds.len() == w@.len() - start,
            forall|j: int| 0 <= j < ds.len() ==> ds[j] == w@[j + start],
            all_dec_digits(ds.subrange(0, i - start)),
            mag == digits_val(ds.subrange(0, i - start)),
            mag <= limit,
            limit == if neg {
                9223372036854775808u64
            } else {
                9223372036854775807u64
            },
        decreases w@.len() - i,
    {
        let c = w[i];
        if c < '0' || c > '9' {
            proof {
                assert(ds[i - start] == c);
                assert(!all_dec_digits(ds));
            }
            return None;
        }
        let d: u64 = (c as u32 - 48) as u64;
        let ghost pre = ds.subrange(0, i - start);
        let ghost pre1 = ds.subrange(0, i + 1 - start);
        proof {
            assert(pre1.subrange(0, pre1.len() - 1) =~= pre);
            assert(pre1[pre1.len() - 1] == ds[i - start]);
            assert(digits_val(pre1) == digits_val(pre) * 10 + digit_val(ds[i - start]));
            assert(all_dec_digits(pre1));
            assert(digit_val(ds[i - start]) == d);
        }
        if mag > (limit - d) / 10 {
            // The value already exceeds the representable range; any further
            // digits only make it larger.
            proof {
                assert(mag * 10 + d > limit) by (nonlinear_arith)
                    requires
                        mag > (limit - d) / 10,
                        0 <= d <= 9,
                        d <= limit,
                ;
                assert(digits_val(pre1) > limit);
                if all_dec_digits(ds) {
                    lemma_digits_val_grows(ds, i + 1 - start);
                    assert(digits_val(ds) >= digits_val(pre1));
                    assert(digits_val(ds) > limit);
                }
            }
            return None;
        }
        proof {
            assert(mag * 10 + d <= limit) by (nonlinear_arith)
                requires
                    mag <= (limit - d) / 10,
                    0 <= d <= 9,
                    d <= limit,
            ;
        }
        mag = mag * 10 + d;
        i = i + 1;
    }
    proof {
        assert(ds.subrange(0, ds.len() as int) =~= ds);
        assert(mag == digits_val(ds));
        assert(all_dec_digits(ds));
    }
    if neg {
        if mag >= 9223372036854775808u64 {
            Some(i64::MIN)
        } else {
            Some(-(mag as i64))
        }
    } else {
        Some(mag as i64)
    }
}

} // verus!
