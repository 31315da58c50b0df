use vstd::prelude::*;
use vstd::wrapping::i64_specs;
use std::rc::Rc;

verus! {

/// The shape of a computed quantity, as the contracts see it: a scalar,
/// an ordered sequence of integers, or the infectious error sentinel.
#[verifier::ext_equal]
pub enum ValModel {
    Atom(i64),
    Vector(Seq<i64>),
    Error,
}

/// A value of the language: a 64-bit integer atom, an immutable integer
/// vector whose storage is shared by reference count, or the error
/// sentinel.  Values are never mutated once constructed; every operation
/// that "changes" a vector allocates a new one.
pub enum Value {
    Atom(i64),
    Vector(Rc<Vec<i64>>),
    Error,
}

impl View for Value {
    type V = ValModel;

    open spec fn view(&self) -> ValModel {
        match self {
            Value::Atom(n) => ValModel::Atom(*n),
            Value::Vector(v) => ValModel::Vector(v@),
            Value::Error => ValModel::Error,
        }
    }
}

/// The order-insensitive integer operations that the elementwise
/// broadcasting combinator accepts.  Broadcasting an atom on the left is
/// realized by swapping the operands, which is sound exactly because each
/// of these operations is commutative (see `lemma_dyad_op_commutes`).
#[derive(Clone, Copy, PartialEq, Eq, Structural, Debug)]
pub enum DyadOp {
    Add,
    Equal,
    NotEqual,
    And,
    Or,
    Mul,
}

/// Two's-complement wrapping negation of a 64-bit integer.
pub open spec fn neg_wrap(x: i64) -> i64 {
    if x == i64::MIN {
        i64::MIN
    } else {
        (-x) as i64
    }
}

/// What a `DyadOp` computes on a pair of integers.  Addition and
/// multiplication wrap on overflow.
pub open spec fn dyad_op_model(op: DyadOp, a: i64, b: i64) -> i64 {
    match op {
        DyadOp::Add => i64_specs::wrapping_add(a, b),
        DyadOp::Equal => if a == b { 1 } else { 0 },
        DyadOp::NotEqual => if a != b { 1 } else { 0 },
        DyadOp::And => a & b,
        DyadOp::Or => a | b,
        DyadOp::Mul => i64_specs::wrapping_mul(a, b),
    }
}

pub fn apply_dyad_op(op: DyadOp, a: i64, b: i64) -> (r: i64)
    ensures
        r == dyad_op_model(op, a, b),
{
    match op {
        DyadOp::Add => a.wrapping_add(b),
        DyadOp::Equal => if a == b { 1 } else { 0 },
        DyadOp::NotEqual => if a != b { 1 } else { 0 },
        DyadOp::And => a & b,
        DyadOp::Or => a | b,
        DyadOp::Mul => a.wrapping_mul(b),
    }
}

/// The broadcasting rule for an order-insensitive dyadic operation:
/// atom with atom gives an atom; a vector paired with an atom applies the
/// operation to every element; two vectors combine pointwise and must have
/// equal lengths (`None` reports the mismatch); an error operand infects
/// the result.
pub open spec fn elementwise_model(op: DyadOp, a: ValModel, b: ValModel) -> Option<ValModel> {
    match (a, b) {
        (ValModel::Atom(x), ValModel::Atom(y)) => Some(ValModel::Atom(dyad_op_model(op, x, y))),
        (ValModel::Vector(s), ValModel::Atom(y)) => Some(
            ValModel::Vector(s.map_values(|x: i64| dyad_op_model(op, x, y))),
        ),
        (ValModel::Atom(y), ValModel::Vector(s)) => Some(
            ValModel::Vector(s.map_values(|x: i64| dyad_op_model(op, x, y))),
        ),
        (ValModel::Vector(s), ValModel::Vector(t)) => if s.len() == t.len() {
            Some(ValModel::Vector(Seq::new(s.len(), |i: int| dyad_op_model(op, s[i], t[i]))))
        } else {
            None
        },
        _ => Some(ValModel::Error),
    }
}

impl Value {
    pub fn is_error(&self) -> (r: bool)
        ensures
            r == (self@ is Error),
    {
        matches!(self, Value::Error)
    }

    /// Copy the handle: an atom by value, a vector by sharing its storage.
    pub fn duplicate(&self) -> (r: Value)
        ensures
            r@ == self@,
    {
        match self {
            Value::Atom(n) => Value::Atom(*n),
            Value::Vector(v) => Value::Vector(Rc::clone(v)),
            Value::Error => Value::Error,
        }
    }

    /// Wrap an atom into a one-element vector.  A vector operand is a rank
    /// fault (`Err`); the error sentinel passes through.
    pub fn enlist(&self) -> (r: Result<Value, ()>)
        ensures
            match self@ {
                ValModel::Atom(x) => r matches Ok(v) && v@ == ValModel::Vector(seq![x]),
                ValModel::Vector(_) => r is Err,
                ValModel::Error => r matches Ok(v) && v@ is Error,
            },
    {
        match self {
            Value::Atom(n) => {
                let mut out: Vec<i64> = Vec::new();
                out.push(*n);
                proof {
                    assert(out@ =~= seq![*n]);
                }
                Ok(Value::Vector(Rc::new(out)))
            },
            Value::Vector(_) => Err(()),
            Value::Error => Ok(Value::Error),
        }
    }

    /// Reverse the element order of a vector.  An atom operand is a rank
    /// fault (`Err`); the error sentinel passes through.
    pub fn reverse(&self) -> (r: Result<Value, ()>)
        ensures
            match self@ {
                ValModel::Atom(_) => r is Err,
                ValModel::Vector(s) => r matches Ok(v) && v@ == ValModel::Vector(s.reverse()),
                ValModel::Error => r matches Ok(v) && v@ is Error,
            },
    {
        match self {
            Value::Atom(_) => Err(()),
            Value::Vector(v) => {
                let n = v.len();
                let mut out: Vec<i64> = Vec::new();
                let mut i: usize = 0;
                while i < n
                    invariant
                        i <= n,
                        n == v@.len(),
                        out@.len() == i,
                        forall|k: int| 0 <= k < i ==> out@[k] == v@[n - 1 - k],
                    decreases n - i,
                {
                    out.push(v[n - 1 - i]);
                    i += 1;
                }
                proof {
                    assert(out@ =~= v@.reverse());
                }
                Ok(Value::Vector(Rc::new(out)))
            },
            Value::Error => Ok(Value::Error),
        }
    }

    /// Elementwise two's-complement negation, defined on atoms and
    /// vectors; the error sentinel passes through.
    pub fn negated(&self) -> (r: Value)
        ensures
            r@ == (match self@ {
                ValModel::Atom(x) => ValModel::Atom(neg_wrap(x)),
                ValModel::Vector(s) => ValModel::Vector(s.map_values(|x: i64| neg_wrap(x))),
                ValModel::Error => ValModel::Error,
            }),
    {
        match self {
            Value::Atom(n) => Value::Atom(0i64.wrapping_sub(*n)),
            Value::Vector(v) => {
                let n = v.len();
                let mut out: Vec<i64> = Vec::new();
                let mut i: usize = 0;
                while i < n
                    invariant
                        i <= n,
                        n == v@.len(),
                        out@.len() == i,
                        forall|k: int| 0 <= k < i ==> out@[k] == neg_wrap(v@[k]),
                    decreases n - i,
                {
                    out.push(0i64.wrapping_sub(v[i]));
                    i += 1;
                }
                proof {
                    assert(out@ =~= v@.map_values(|x: i64| neg_wrap(x)));
                }
                Value::Vector(Rc::new(out))
            },
            Value::Error => Value::Error,
        }
    }

    /// Combine two values with an order-insensitive dyadic operation under
    /// the broadcasting rule.  `Err` reports a vector length mismatch.
    pub fn apply_dyadic_verb(&self, other: &Value, op: DyadOp) -> (r: Result<Value, ()>)
        ensures
            match elementwise_model(op, self@, other@) {
                Some(m) => r matches Ok(v) && v@ == m,
                None => r is Err,
            },
    {
        match (self, other) {
            (Value::Atom(a), Value::Atom(b)) => Ok(Value::Atom(apply_dyad_op(op, *a, *b))),
            (Value::Vector(s), Value::Atom(b)) => Ok(map_with_atom(s, *b, op)),
            (Value::Atom(a), Value::Vector(s)) => Ok(map_with_atom(s, *a, op)),
            (Value::Vector(s), Value::Vector(t)) => {
                let n = s.len();
                if n != t.len() {
                    return Err(());
                }
                let mut out: Vec<i64> = Vec::new();
                let mut i: usize = 0;
                while i < n
                    invariant
                        i <= n,
                        n == s@.len() && n == t@.len(),
                        out@.len() == i,
                        forall|k: int| 0 <= k < i ==> out@[k] == dyad_op_model(op, s@[k], t@[k]),
                    decreases n - i,
                {
                    out.push(apply_dyad_op(op, s[i], t[i]));
                    i += 1;
                }
                proof {
                    assert(out@ =~= Seq::new(s@.len(), |i: int| dyad_op_model(op, s@[i], t@[i])));
                }
                Ok(Value::Vector(Rc::new(out)))
            },
            _ => Ok(Value::Error),
        }
    }
}

/// The bytes the renderer speaks of: digits, minus, space and the word
/// `Error`.
pub const CH_ZERO: u8 = 48;

pub const CH_MINUS: u8 = 45;

pub const CH_SPACE: u8 = 32;

pub const CH_E: u8 = 69;

pub const CH_O: u8 = 111;

pub const CH_R: u8 = 114;

/// The decimal digits of a non-negative integer, most significant first.
pub open spec fn digits_model(n: nat) -> Seq<u8>
    decreases n,
{
    if n < 10 {
        seq![(CH_ZERO + n) as u8]
    } else {
        digits_model(n / 10).push((CH_ZERO + n % 10) as u8)
    }
}

/// The decimal rendering of a signed integer: a minus sign, if any, then
/// the digits of the magnitude.
pub open spec fn int_bytes(x: int) -> Seq<u8> {
    if x < 0 {
        seq![CH_MINUS] + digits_model((-x) as nat)
    } else {
        digits_model(x as nat)
    }
}

/// The rendering of a vector: each element in order, every one followed
/// by a single space (so a rendered vector ends in a trailing space and an
/// empty vector renders as nothing).
pub open spec fn vector_bytes(s: Seq<i64>) -> Seq<u8>
    decreases s.len(),
{
    if s.len() == 0 {
        Seq::empty()
    } else {
        vector_bytes(s.drop_last()) + int_bytes(s.last() as int) + seq![CH_SPACE]
    }
}

/// The textual rendering of a value: an atom as its decimal integer, a
/// vector as its elements space-separated with a trailing space, the
/// error sentinel as the literal word `Error`.
pub open spec fn render_model(v: ValModel) -> Seq<u8> {
    match v {
        ValModel::Atom(x) => int_bytes(x as int),
        ValModel::Vector(s) => vector_bytes(s),
        ValModel::Error => seq![CH_E, CH_R, CH_R, CH_O, CH_R],
    }
}

/// Append the decimal digits of `n`, most significant first.
fn push_decimal(out: &mut Vec<u8>, n: u64)
    ensures
        final(out)@ == old(out)@ + digits_model(n as nat),
    decreases n,
{
    if n < 10 {
        out.push(CH_ZERO + (n as u8));
        proof {
            assert(out@ =~= old(out)@ + digits_model(n as nat));
        }
    } else {
        push_decimal(out, n / 10);
        out.push(CH_ZERO + ((n % 10) as u8));
        proof {
            assert(out@ =~= old(out)@ + digits_model(n as nat));
        }
    }
}

/// Append the decimal rendering of a signed integer.
fn push_integer(out: &mut Vec<u8>, x: i64)
    ensures
        final(out)@ == old(out)@ + int_bytes(x as int),
{
    if x < 0 {
        out.push(CH_MINUS);
        let mag: u64 = (-(x as i128)) as u64;
        push_decimal(out, mag);
        proof {
            assert(out@ =~= old(out)@ + int_bytes(x as int));
        }
    } else {
        push_decimal(out, x as u64);
    }
}

impl Value {
    /// Render the value as the line the front end prints.
    pub fn render(&self) -> (r: Vec<u8>)
        ensures
            r@ == render_model(self@),
    {
        let mut out: Vec<u8> = Vec::new();
        match self {
            Value::Atom(n) => {
                push_integer(&mut out, *n);
            },
            Value::Vector(v) => {
                let n = v.len();
                let mut i: usize = 0;
                while i < n
                    invariant
                        i <= n,
                        n == v@.len(),
                        out@ == vector_bytes(v@.take(i as int)),
                    decreases n - i,
                {
                    push_integer(&mut out, v[i]);
                    out.push(CH_SPACE);
                    proof {
                        assert(v@.take(i + 1).drop_last() =~= v@.take(i as int));
                        assert(v@.take(i + 1).last() == v@[i as int]);
                        assert(out@ =~= vector_bytes(v@.take(i + 1)));
                    }
                    i += 1;
                }
                proof {
                    assert(v@.take(n as int) =~= v@);
                }
            },
            Value::Error => {
                out.push(CH_E);
                out.push(CH_R);
                out.push(CH_R);
                out.push(CH_O);
                out.push(CH_R);
                proof {
                    assert(out@ =~= seq![CH_E, CH_R, CH_R, CH_O, CH_R]);
                }
            },
        }
        out
    }
}

/// Apply the operation to every element of the vector, the atom standing
/// on the other side.
fn map_with_atom(s: &Rc<Vec<i64>>, b: i64, op: DyadOp) -> (r: Value)
    ensures
        r@ == ValModel::Vector(s@.map_values(|x: i64| dyad_op_model(op, x, b))),
{
    let n = s.len();
    let mut out: Vec<i64> = Vec::new();
    let mut i: usize = 0;
    while i < n
        invariant
            i <= n,
            n == s@.len(),
            out@.len() == i,
            forall|k: int| 0 <= k < i ==> out@[k] == dyad_op_model(op, s@[k], b),
        decreases n - i,
    {
        out.push(apply_dyad_op(op, s[i], b));
        i += 1;
    }
    proof {
        assert(out@ =~= s@.map_values(|x: i64| dyad_op_model(op, x, b)));
    }
    Value::Vector(Rc::new(out))
}

} // verus!
