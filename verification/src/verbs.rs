use vstd::prelude::*;
use crate::runtime::{Diagnostic, ErrorKind, OpName, Runtime};
use crate::value::{
    dyad_op_model, elementwise_model, neg_wrap, DyadOp, ValModel, Value,
};
use std::rc::Rc;

verus! {

broadcast use vstd::seq_lib::group_seq_properties;


/// A single diagnostic, as a sequence to append.
pub open spec fn one_diag(op: OpName, kind: ErrorKind) -> Seq<Diagnostic> {
    seq![Diagnostic { op, kind }]
}

/// The diagnostics enumeration emits: one for a negative atom or a
/// vector operand, none otherwise.
pub open spec fn enumerate_diags(v: ValModel) -> Seq<Diagnostic> {
    match v {
        ValModel::Atom(n) => if n < 0 {
            one_diag(OpName::MonadicEnumerate, ErrorKind::Domain)
        } else {
            Seq::empty()
        },
        ValModel::Vector(_) => one_diag(OpName::MonadicEnumerate, ErrorKind::Rank),
        ValModel::Error => Seq::empty(),
    }
}

pub open spec fn count_diags(v: ValModel) -> Seq<Diagnostic> {
    match v {
        ValModel::Atom(_) => one_diag(OpName::MonadicCount, ErrorKind::Rank),
        _ => Seq::empty(),
    }
}

pub open spec fn enlist_diags(v: ValModel) -> Seq<Diagnostic> {
    match v {
        ValModel::Vector(_) => one_diag(OpName::MonadicEnlist, ErrorKind::Rank),
        _ => Seq::empty(),
    }
}

pub open spec fn reverse_diags(v: ValModel) -> Seq<Diagnostic> {
    match v {
        ValModel::Atom(_) => one_diag(OpName::MonadicReverse, ErrorKind::Rank),
        _ => Seq::empty(),
    }
}

/// A broadcast verb reports exactly one domain fault, on a vector
/// length mismatch.
pub open spec fn broadcast_diags(op: DyadOp, a: ValModel, b: ValModel, name: OpName) -> Seq<
    Diagnostic,
> {
    if elementwise_model(op, a, b) is None {
        one_diag(name, ErrorKind::Domain)
    } else {
        Seq::empty()
    }
}

pub open spec fn modulo_diags(a: ValModel, b: ValModel) -> Seq<Diagnostic> {
    if a is Error || b is Error {
        Seq::empty()
    } else {
        match a {
            ValModel::Atom(m) => if m == 0 {
                one_diag(OpName::DyadicModulo, ErrorKind::Domain)
            } else {
                Seq::empty()
            },
            _ => one_diag(OpName::DyadicModulo, ErrorKind::Domain),
        }
    }
}

pub open spec fn take_diags(a: ValModel, b: ValModel) -> Seq<Diagnostic> {
    if a is Error || b is Error {
        Seq::empty()
    } else {
        match a {
            ValModel::Atom(n) => if n < 0 {
                one_diag(OpName::DyadicTake, ErrorKind::Domain)
            } else {
                match b {
                    ValModel::Vector(s) => if s.len() == 0 && n > 0 {
                        one_diag(OpName::DyadicTake, ErrorKind::Length)
                    } else {
                        Seq::empty()
                    },
                    _ => Seq::empty(),
                }
            },
            _ => one_diag(OpName::DyadicTake, ErrorKind::Rank),
        }
    }
}

pub open spec fn index_at_diags(a: ValModel, b: ValModel) -> Seq<Diagnostic> {
    if a is Error || b is Error {
        Seq::empty()
    } else {
        match a {
            ValModel::Vector(s) => match b {
                ValModel::Atom(i) => if i < 0 || i > s.len() {
                    one_diag(OpName::DyadicIndexAt, ErrorKind::Length)
                } else {
                    Seq::empty()
                },
                _ => Seq::empty(),
            },
            _ => one_diag(OpName::DyadicIndexAt, ErrorKind::Rank),
        }
    }
}

/// The diagnostics the monadic dispatch emits for each index.
pub open spec fn monadic_diags(idx: int, v: ValModel) -> Seq<Diagnostic> {
    if idx == 2 {
        Seq::empty()
    } else if idx == 3 {
        enumerate_diags(v)
    } else if idx == 4 {
        count_diags(v)
    } else if idx == 5 {
        enlist_diags(v)
    } else if idx == 6 {
        index_at_diags(v, ValModel::Atom(0))
    } else if idx == 10 {
        reverse_diags(v)
    } else if idx == 1 || idx == 7 || idx == 8 || idx == 9 || idx == 11 {
        one_diag(OpName::MonadicNotImplemented, ErrorKind::Nyi)
    } else {
        one_diag(OpName::MonadicNotAVerb, ErrorKind::Domain)
    }
}

/// The diagnostics the dyadic dispatch emits for each index.
pub open spec fn dyadic_diags(idx: int, a: ValModel, b: ValModel) -> Seq<Diagnostic> {
    if idx == 1 {
        broadcast_diags(DyadOp::Add, a, b, OpName::DyadicAdd)
    } else if idx == 2 {
        broadcast_diags(DyadOp::Add, a, negate_model(b), OpName::DyadicAdd)
    } else if idx == 3 {
        modulo_diags(a, b)
    } else if idx == 4 {
        take_diags(a, b)
    } else if idx == 5 {
        Seq::empty()
    } else if idx == 6 {
        index_at_diags(a, b)
    } else if idx == 7 {
        broadcast_diags(DyadOp::Equal, a, b, OpName::DyadicEqual)
    } else if idx == 8 {
        broadcast_diags(DyadOp::NotEqual, a, b, OpName::DyadicNotEqual)
    } else if idx == 9 {
        broadcast_diags(DyadOp::And, a, b, OpName::DyadicAnd)
    } else if idx == 10 {
        broadcast_diags(DyadOp::Or, a, b, OpName::DyadicOr)
    } else if idx == 11 {
        broadcast_diags(DyadOp::Mul, a, b, OpName::DyadicProduct)
    } else {
        one_diag(OpName::DyadicNotAVerb, ErrorKind::Domain)
    }
}

/// Elementwise wrapping negation of a value.
pub open spec fn negate_model(v: ValModel) -> ValModel {
    match v {
        ValModel::Atom(x) => ValModel::Atom(neg_wrap(x)),
        ValModel::Vector(s) => ValModel::Vector(s.map_values(|x: i64| neg_wrap(x))),
        ValModel::Error => ValModel::Error,
    }
}

/// `!n` on a non-negative atom `n`: the vector `0 1 ... n-1`.  A negative
/// atom is a domain fault, a vector a rank fault.
pub open spec fn enumerate_model(v: ValModel) -> ValModel {
    match v {
        ValModel::Atom(n) => if n < 0 {
            ValModel::Error
        } else {
            ValModel::Vector(Seq::new(n as nat, |i: int| i as i64))
        },
        ValModel::Vector(_) => ValModel::Error,
        ValModel::Error => ValModel::Error,
    }
}

/// A vector length carried into an atom the way the machine does it: by
/// two's-complement truncation of the word.
pub open spec fn len_atom(n: nat) -> i64
    recommends
        n <= u64::MAX,
{
    if n <= i64::MAX {
        n as i64
    } else {
        (n - 0x1_0000_0000_0000_0000) as i64
    }
}

/// `#v` on a vector: its length as an atom.  An atom is a rank fault.
pub open spec fn count_model(v: ValModel) -> ValModel {
    match v {
        ValModel::Atom(_) => ValModel::Error,
        ValModel::Vector(s) => ValModel::Atom(len_atom(s.len())),
        ValModel::Error => ValModel::Error,
    }
}

/// `,x` on an atom: the one-element vector.  A vector is a rank fault.
pub open spec fn enlist_model(v: ValModel) -> ValModel {
    match v {
        ValModel::Atom(x) => ValModel::Vector(seq![x]),
        ValModel::Vector(_) => ValModel::Error,
        ValModel::Error => ValModel::Error,
    }
}

/// `|v` on a vector: the elements in reverse order.  An atom is a rank
/// fault.
pub open spec fn reverse_model(v: ValModel) -> ValModel {
    match v {
        ValModel::Atom(_) => ValModel::Error,
        ValModel::Vector(s) => ValModel::Vector(s.reverse()),
        ValModel::Error => ValModel::Error,
    }
}

/// The broadcasting combinator with its length mismatch collapsed into
/// the error sentinel (the mismatch is what the domain diagnostic
/// reports).
pub open spec fn broadcast_model(op: DyadOp, a: ValModel, b: ValModel) -> ValModel {
    match elementwise_model(op, a, b) {
        Some(m) => m,
        None => ValModel::Error,
    }
}

/// `a+b`: elementwise wrapping addition under broadcast.
pub open spec fn add_model(a: ValModel, b: ValModel) -> ValModel {
    broadcast_model(DyadOp::Add, a, b)
}

/// `a-b`: addition of the negated right operand.
pub open spec fn subtract_model(a: ValModel, b: ValModel) -> ValModel {
    add_model(a, negate_model(b))
}

/// The remainder the machine's division yields: truncated toward zero,
/// its sign following the dividend; the one overflowing pair leaves 0,
/// the mathematical remainder.
pub open spec fn rem_trunc(a: i64, b: i64) -> i64
    recommends
        b != 0,
{
    if a == i64::MIN && b == -1 {
        0
    } else {
        let x = a as int;
        let d = b as int;
        let m = if x == 0 {
            0int
        } else if x > 0 && d > 0 {
            x % d
        } else if x < 0 && d < 0 {
            ((x * -1) % (d * -1)) * -1
        } else if x < 0 {
            ((x * -1) % d) * -1
        } else {
            x % (d * -1)
        };
        m as i64
    }
}

/// `m!v`: every element of the right operand reduced modulo the left
/// atom.  A zero or non-atom left operand is a domain fault.
pub open spec fn modulo_model(a: ValModel, b: ValModel) -> ValModel {
    if a is Error || b is Error {
        ValModel::Error
    } else {
        match a {
            ValModel::Atom(m) => if m == 0 {
                ValModel::Error
            } else {
                match b {
                    ValModel::Atom(x) => ValModel::Atom(rem_trunc(x, m)),
                    ValModel::Vector(s) => ValModel::Vector(
                        s.map_values(|x: i64| rem_trunc(x, m)),
                    ),
                    ValModel::Error => ValModel::Error,
                }
            },
            _ => ValModel::Error,
        }
    }
}

/// `n#v`: `n` copies of an atom, or `n` elements drawn cyclically from a
/// vector.  A negative count is a domain fault, a vector count a rank
/// fault, and a positive draw from an empty vector a length fault.
pub open spec fn take_model(a: ValModel, b: ValModel) -> ValModel {
    if a is Error || b is Error {
        ValModel::Error
    } else {
        match a {
            ValModel::Atom(n) => if n < 0 {
                ValModel::Error
            } else {
                match b {
                    ValModel::Atom(x) => ValModel::Vector(Seq::new(n as nat, |i: int| x)),
                    ValModel::Vector(s) => if s.len() == 0 && n > 0 {
                        ValModel::Error
                    } else {
                        ValModel::Vector(Seq::new(n as nat, |i: int| s[i % (s.len() as int)]))
                    },
                    ValModel::Error => ValModel::Error,
                }
            },
            _ => ValModel::Error,
        }
    }
}

/// `a,b`: atoms are enlisted first, then the two vectors are joined.
pub open spec fn concatenate_model(a: ValModel, b: ValModel) -> ValModel {
    if a is Error || b is Error {
        ValModel::Error
    } else {
        let left = match a {
            ValModel::Atom(x) => seq![x],
            ValModel::Vector(s) => s,
            ValModel::Error => Seq::empty(),
        };
        let right = match b {
            ValModel::Atom(y) => seq![y],
            ValModel::Vector(t) => t,
            ValModel::Error => Seq::empty(),
        };
        ValModel::Vector(left + right)
    }
}

/// One elementwise index into `s`: clamped below at 0, out of range
/// above yields 0.
pub open spec fn index_clamped(s: Seq<i64>, i: i64) -> i64 {
    let j: int = if i < 0 {
        0
    } else {
        i as int
    };
    if j < s.len() {
        s[j]
    } else {
        0
    }
}

/// `v@i`: the left operand must be a vector (else a rank fault).  An
/// atom index must lie between 0 and the length inclusive — the length
/// itself is permitted and yields 0 — else a length fault.  A vector of
/// indices indexes elementwise, clamped below at 0, out of range
/// yielding 0, never a fault.
pub open spec fn index_at_model(a: ValModel, b: ValModel) -> ValModel {
    if a is Error || b is Error {
        ValModel::Error
    } else {
        match a {
            ValModel::Vector(s) => match b {
                ValModel::Atom(i) => if i < 0 || i > s.len() {
                    ValModel::Error
                } else if i == s.len() {
                    ValModel::Atom(0)
                } else {
                    ValModel::Atom(s[i as int])
                },
                ValModel::Vector(idx) => ValModel::Vector(
                    idx.map_values(|i: i64| index_clamped(s, i)),
                ),
                ValModel::Error => ValModel::Error,
            },
            _ => ValModel::Error,
        }
    }
}

/// `@v`: the first element, realized as indexing at 0.
pub open spec fn first_model(v: ValModel) -> ValModel {
    index_at_model(v, ValModel::Atom(0))
}

/// The frame every verb preserves: the environment stays well formed,
/// no global binding moves, and diagnostics only accumulate.
pub open spec fn verb_frame(pre: Runtime, post: Runtime) -> bool {
    &&& post.wf() == pre.wf()
    &&& post.globals_model() == pre.globals_model()
    &&& pre.diags().is_prefix_of(post.diags())
}

pub proof fn lemma_prefix_refl<A>(a: Seq<A>)
    ensures
        a.is_prefix_of(a),
{
    assert(a =~= a.subrange(0, a.len() as int));
}

pub proof fn lemma_prefix_push<A>(a: Seq<A>, d: A)
    ensures
        a.is_prefix_of(a.push(d)),
{
    assert(a =~= a.push(d).subrange(0, a.len() as int));
}

pub proof fn lemma_prefix_trans<A>(a: Seq<A>, b: Seq<A>, c: Seq<A>)
    requires
        a.is_prefix_of(b),
        b.is_prefix_of(c),
    ensures
        a.is_prefix_of(c),
{
    assert(forall|i: int| 0 <= i < a.len() ==> a[i] == b[i]);
    assert(forall|i: int| 0 <= i < b.len() ==> b[i] == c[i]);
    assert(a =~= c.subrange(0, a.len() as int));
}

/// Negate `value`.
pub fn monadic_negate(runtime: &mut Runtime, value: Value) -> (r: Value)
    requires
        old(runtime).wf(),
    ensures
        verb_frame(*old(runtime), *final(runtime)),
        r@ == negate_model(value@),
        final(runtime).diags() == old(runtime).diags(),
{
    proof {
        lemma_prefix_refl(old(runtime).diags());
    }
    value.negated()
}

/// Enumerate `value`.
pub fn monadic_enumerate(runtime: &mut Runtime, value: Value) -> (r: Value)
    requires
        old(runtime).wf(),
    ensures
        verb_frame(*old(runtime), *final(runtime)),
        r@ == enumerate_model(value@),
        final(runtime).diags() == old(runtime).diags() + enumerate_diags(value@),
{
    match value {
        Value::Atom(integer) => {
            if integer < 0 {
                let r = runtime.domain_error(OpName::MonadicEnumerate);
                proof {
                    lemma_prefix_push(
                        old(runtime).diags(),
                        final(runtime).diags().last(),
                    );
                }
                r
            } else {
                let mut out: Vec<i64> = Vec::new();
                let mut k: i64 = 0;
                while k < integer
                    invariant
                        0 <= k <= integer,
                        out@.len() == k,
                        forall|j: int| 0 <= j < k ==> out@[j] == j as i64,
                    decreases integer - k,
                {
                    out.push(k);
                    k += 1;
                }
                proof {
                    lemma_prefix_refl(old(runtime).diags());
                    assert(ValModel::Vector(out@) =~= enumerate_model(value@));
                }
                Value::Vector(Rc::new(out))
            }
        },
        Value::Vector(_) => {
            let r = runtime.rank_error(OpName::MonadicEnumerate);
            proof {
                lemma_prefix_push(old(runtime).diags(), final(runtime).diags().last());
            }
            r
        },
        Value::Error => {
            proof {
                lemma_prefix_refl(old(runtime).diags());
            }
            Value::Error
        },
    }
}

/// Return the length of `value`.
pub fn monadic_count(runtime: &mut Runtime, value: Value) -> (r: Value)
    requires
        old(runtime).wf(),
    ensures
        verb_frame(*old(runtime), *final(runtime)),
        r@ == count_model(value@),
        final(runtime).diags() == old(runtime).diags() + count_diags(value@),
{
    match value {
        Value::Atom(_) => {
            let r = runtime.rank_error(OpName::MonadicCount);
            proof {
                lemma_prefix_push(old(runtime).diags(), final(runtime).diags().last());
            }
            r
        },
        Value::Vector(vector) => {
            proof {
                lemma_prefix_refl(old(runtime).diags());
            }
            let n = vector.len();
            let wide: i128 = n as i128;
            if wide <= 0x7fff_ffff_ffff_ffffi128 {
                Value::Atom(wide as i64)
            } else {
                Value::Atom((wide - 0x1_0000_0000_0000_0000i128) as i64)
            }
        },
        Value::Error => {
            proof {
                lemma_prefix_refl(old(runtime).diags());
            }
            Value::Error
        },
    }
}

/// Enlist `value`.
pub fn monadic_enlist(runtime: &mut Runtime, value: Value) -> (r: Value)
    requires
        old(runtime).wf(),
    ensures
        verb_frame(*old(runtime), *final(runtime)),
        r@ == enlist_model(value@),
        final(runtime).diags() == old(runtime).diags() + enlist_diags(value@),
{
    match value.enlist() {
        Ok(v) => {
            proof {
                lemma_prefix_refl(old(runtime).diags());
            }
            v
        },
        Err(_) => {
            let r = runtime.rank_error(OpName::MonadicEnlist);
            proof {
                lemma_prefix_push(old(runtime).diags(), final(runtime).diags().last());
            }
            r
        },
    }
}

/// Reverse `value`.
pub fn monadic_reverse(runtime: &mut Runtime, value: Value) -> (r: Value)
    requires
        old(runtime).wf(),
    ensures
        verb_frame(*old(runtime), *final(runtime)),
        r@ == reverse_model(value@),
        final(runtime).diags() == old(runtime).diags() + reverse_diags(value@),
{
    match value.reverse() {
        Ok(v) => {
            proof {
                lemma_prefix_refl(old(runtime).diags());
            }
            v
        },
        Err(_) => {
            let r = runtime.rank_error(OpName::MonadicReverse);
            proof {
                lemma_prefix_push(old(runtime).diags(), final(runtime).diags().last());
            }
            r
        },
    }
}

/// Return the first element of `value`.
pub fn monadic_first(runtime: &mut Runtime, value: Value) -> (r: Value)
    requires
        old(runtime).wf(),
    ensures
        verb_frame(*old(runtime), *final(runtime)),
        r@ == first_model(value@),
        final(runtime).diags() == old(runtime).diags() + index_at_diags(value@, ValModel::Atom(0)),
{
    dyadic_index_at(runtime, value, Value::Atom(0))
}

/// Combine under broadcast and report a length mismatch as a domain
/// fault of the named operation.
fn broadcast_verb(runtime: &mut Runtime, left: Value, right: Value, op: DyadOp, name: OpName) -> (r:
    Value)
    requires
        old(runtime).wf(),
    ensures
        verb_frame(*old(runtime), *final(runtime)),
        r@ == broadcast_model(op, left@, right@),
        final(runtime).diags() == old(runtime).diags() + broadcast_diags(op, left@, right@, name),
{
    match left.apply_dyadic_verb(&right, op) {
        Ok(v) => {
            proof {
                lemma_prefix_refl(old(runtime).diags());
            }
            v
        },
        Err(_) => {
            let r = runtime.domain_error(name);
            proof {
                lemma_prefix_push(old(runtime).diags(), final(runtime).diags().last());
            }
            r
        },
    }
}

/// Add `left` and `right`.
pub fn dyadic_add(runtime: &mut Runtime, left: Value, right: Value) -> (r: Value)
    requires
        old(runtime).wf(),
    ensures
        verb_frame(*old(runtime), *final(runtime)),
        r@ == add_model(left@, right@),
        final(runtime).diags() == old(runtime).diags() + broadcast_diags(DyadOp::Add, left@, right@, OpName::DyadicAdd),
{
    broadcast_verb(runtime, left, right, DyadOp::Add, OpName::DyadicAdd)
}

/// Subtract `right` from `left`.
pub fn dyadic_subtract(runtime: &mut Runtime, left: Value, right: Value) -> (r: Value)
    requires
        old(runtime).wf(),
    ensures
        verb_frame(*old(runtime), *final(runtime)),
        r@ == subtract_model(left@, right@),
        final(runtime).diags() == old(runtime).diags() + broadcast_diags(DyadOp::Add, left@, negate_model(right@), OpName::DyadicAdd),
{
    let negated = right.negated();
    dyadic_add(runtime, left, negated)
}

/// One machine remainder; the overflowing pair leaves 0.
fn rem_exec(a: i64, b: i64) -> (r: i64)
    requires
        b != 0,
    ensures
        r == rem_trunc(a, b),
{
    match a.checked_rem(b) {
        Some(r) => r,
        None => 0,
    }
}

/// Modulo `left` and `right`.
pub fn dyadic_modulo(runtime: &mut Runtime, left: Value, right: Value) -> (r: Value)
    requires
        old(runtime).wf(),
    ensures
        verb_frame(*old(runtime), *final(runtime)),
        r@ == modulo_model(left@, right@),
        final(runtime).diags() == old(runtime).diags() + modulo_diags(left@, right@),
{
    if left.is_error() || right.is_error() {
        proof {
            lemma_prefix_refl(old(runtime).diags());
        }
        return Value::Error;
    }

    let modulus = match left {
        Value::Atom(integer) => if integer != 0 {
            integer
        } else {
            let r = runtime.domain_error(OpName::DyadicModulo);
            proof {
                lemma_prefix_push(old(runtime).diags(), final(runtime).diags().last());
            }
            return r;
        },
        _ => {
            let r = runtime.domain_error(OpName::DyadicModulo);
            proof {
                lemma_prefix_push(old(runtime).diags(), final(runtime).diags().last());
            }
            return r;
        },
    };

    proof {
        lemma_prefix_refl(old(runtime).diags());
    }
    match right {
        Value::Atom(integer) => Value::Atom(rem_exec(integer, modulus)),
        Value::Vector(vector) => {
            let n = vector.len();
            let mut out: Vec<i64> = Vec::new();
            let mut i: usize = 0;
            while i < n
                invariant
                    i <= n,
                    n == vector@.len(),
                    modulus != 0,
                    out@.len() == i,
                    forall|k: int| 0 <= k < i ==> out@[k] == rem_trunc(vector@[k], modulus),
                decreases n - i,
            {
                out.push(rem_exec(vector[i], modulus));
                i += 1;
            }
            proof {
                assert(out@ =~= vector@.map_values(|x: i64| rem_trunc(x, modulus)));
            }
            Value::Vector(Rc::new(out))
        },
        Value::Error => Value::Error,
    }
}

/// Take the first `count` elements from `right`, cyclically from a
/// vector.
pub fn dyadic_take(runtime: &mut Runtime, left: Value, right: Value) -> (r: Value)
    requires
        old(runtime).wf(),
    ensures
        verb_frame(*old(runtime), *final(runtime)),
        r@ == take_model(left@, right@),
        final(runtime).diags() == old(runtime).diags() + take_diags(left@, right@),
{
    if left.is_error() || right.is_error() {
        proof {
            lemma_prefix_refl(old(runtime).diags());
        }
        return Value::Error;
    }

    let count: i64 = match left {
        Value::Atom(integer) => if integer >= 0 {
            integer
        } else {
            let r = runtime.domain_error(OpName::DyadicTake);
            proof {
                lemma_prefix_push(old(runtime).diags(), final(runtime).diags().last());
            }
            return r;
        },
        _ => {
            let r = runtime.rank_error(OpName::DyadicTake);
            proof {
                lemma_prefix_push(old(runtime).diags(), final(runtime).diags().last());
            }
            return r;
        },
    };

    match right {
        Value::Atom(integer) => {
            let mut out: Vec<i64> = Vec::new();
            let mut k: i64 = 0;
            while k < count
                invariant
                    0 <= k <= count,
                    out@.len() == k,
                    forall|j: int| 0 <= j < k ==> out@[j] == integer,
                decreases count - k,
            {
                out.push(integer);
                k += 1;
            }
            proof {
                lemma_prefix_refl(old(runtime).diags());
                assert(ValModel::Vector(out@) =~= take_model(left@, right@));
            }
            Value::Vector(Rc::new(out))
        },
        Value::Vector(vector) => {
            let length = vector.len();
            if length == 0 && count > 0 {
                // A cyclic draw from an empty vector has no element to
                // copy: a length fault.
                let r = runtime.length_error(OpName::DyadicTake);
                proof {
                    lemma_prefix_push(old(runtime).diags(), final(runtime).diags().last());
                }
                return r;
            }
            let mut out: Vec<i64> = Vec::new();
            let mut k: i64 = 0;
            while k < count
                invariant
                    0 <= k <= count,
                    length == vector@.len(),
                    length > 0 || count == 0,
                    out@.len() == k,
                    forall|j: int|
                        0 <= j < k ==> out@[j] == vector@[j % (vector@.len() as int)],
                decreases count - k,
            {
                let cyclic = ((k as u64) % (length as u64)) as usize;
                proof {
                    assert(cyclic == (k as int) % (vector@.len() as int));
                }
                out.push(vector[cyclic]);
                k += 1;
            }
            proof {
                lemma_prefix_refl(old(runtime).diags());
                assert(ValModel::Vector(out@) =~= take_model(left@, right@));
            }
            Value::Vector(Rc::new(out))
        },
        Value::Error => {
            proof {
                lemma_prefix_refl(old(runtime).diags());
            }
            Value::Error
        },
    }
}

/// Concatenate `left` and `right`, enlisting atoms first.
pub fn dyadic_concatenate(runtime: &mut Runtime, left: Value, right: Value) -> (r: Value)
    requires
        old(runtime).wf(),
    ensures
        verb_frame(*old(runtime), *final(runtime)),
        r@ == concatenate_model(left@, right@),
        final(runtime).diags() == old(runtime).diags(),
{
    proof {
        lemma_prefix_refl(old(runtime).diags());
    }
    if left.is_error() || right.is_error() {
        return Value::Error;
    }

    let mut out: Vec<i64> = Vec::new();
    match &left {
        Value::Atom(x) => {
            out.push(*x);
        },
        Value::Vector(s) => {
            let n = s.len();
            let mut i: usize = 0;
            while i < n
                invariant
                    i <= n,
                    n == s@.len(),
                    out@ == s@.take(i as int),
                decreases n - i,
            {
                out.push(s[i]);
                proof {
                    assert(out@ =~= s@.take(i + 1));
                }
                i += 1;
            }
            proof {
                assert(s@.take(n as int) =~= s@);
            }
        },
        Value::Error => {},
    }
    let ghost left_part = out@;
    match &right {
        Value::Atom(y) => {
            out.push(*y);
        },
        Value::Vector(t) => {
            let n = t.len();
            let mut i: usize = 0;
            while i < n
                invariant
                    i <= n,
                    n == t@.len(),
                    out@ == left_part + t@.take(i as int),
                decreases n - i,
            {
                out.push(t[i]);
                proof {
                    assert(out@ =~= left_part + t@.take(i + 1));
                }
                i += 1;
            }
            proof {
                assert(t@.take(n as int) =~= t@);
            }
        },
        Value::Error => {},
    }
    proof {
        assert(out@ =~= (match left@ {
            ValModel::Atom(x) => seq![x],
            ValModel::Vector(s) => s,
            ValModel::Error => Seq::empty(),
        }) + (match right@ {
            ValModel::Atom(y) => seq![y],
            ValModel::Vector(t) => t,
            ValModel::Error => Seq::empty(),
        }));
    }
    Value::Vector(Rc::new(out))
}

/// Return the element at `right` in `left`.
pub fn dyadic_index_at(runtime: &mut Runtime, left: Value, right: Value) -> (r: Value)
    requires
        old(runtime).wf(),
    ensures
        verb_frame(*old(runtime), *final(runtime)),
        r@ == index_at_model(left@, right@),
        final(runtime).diags() == old(runtime).diags() + index_at_diags(left@, right@),
{
    if left.is_error() || right.is_error() {
        proof {
            lemma_prefix_refl(old(runtime).diags());
        }
        return Value::Error;
    }

    let left_vector = match left {
        Value::Vector(vector) => vector,
        _ => {
            let r = runtime.rank_error(OpName::DyadicIndexAt);
            proof {
                lemma_prefix_push(old(runtime).diags(), final(runtime).diags().last());
            }
            return r;
        },
    };

    let left_length = left_vector.len();

    match right {
        Value::Atom(index_integer) => {
            if index_integer < 0 || (index_integer as u64) > (left_length as u64) {
                let r = runtime.length_error(OpName::DyadicIndexAt);
                proof {
                    lemma_prefix_push(old(runtime).diags(), final(runtime).diags().last());
                }
                return r;
            }
            proof {
                lemma_prefix_refl(old(runtime).diags());
                assert(0 <= index_integer as int <= left_vector@.len());
            }
            let index = index_integer as usize;
            if index == left_length {
                Value::Atom(0)
            } else {
                Value::Atom(left_vector[index])
            }
        },
        Value::Vector(indices) => {
            proof {
                lemma_prefix_refl(old(runtime).diags());
            }
            let n = indices.len();
            let mut out: Vec<i64> = Vec::new();
            let mut i: usize = 0;
            while i < n
                invariant
                    i <= n,
                    n == indices@.len(),
                    left_length == left_vector@.len(),
                    out@.len() == i,
                    forall|k: int|
                        0 <= k < i ==> out@[k] == index_clamped(left_vector@, indices@[k]),
                decreases n - i,
            {
                let raw = indices[i];
                let clamped: i64 = if raw < 0 {
                    0
                } else {
                    raw
                };
                let element = if (clamped as u64) < (left_length as u64) {
                    left_vector[clamped as usize]
                } else {
                    0
                };
                out.push(element);
                proof {
                    assert(element == index_clamped(left_vector@, indices@[i as int]));
                }
                i += 1;
            }
            proof {
                assert(out@ =~= indices@.map_values(|i: i64| index_clamped(left_vector@, i)));
            }
            Value::Vector(Rc::new(out))
        },
        Value::Error => {
            proof {
                lemma_prefix_refl(old(runtime).diags());
            }
            Value::Error
        },
    }
}

/// Return 1 where `left` equals `right`, 0 elsewhere.
pub fn dyadic_equal(runtime: &mut Runtime, left: Value, right: Value) -> (r: Value)
    requires
        old(runtime).wf(),
    ensures
        verb_frame(*old(runtime), *final(runtime)),
        r@ == broadcast_model(DyadOp::Equal, left@, right@),
        final(runtime).diags() == old(runtime).diags() + broadcast_diags(DyadOp::Equal, left@, right@, OpName::DyadicEqual),
{
    broadcast_verb(runtime, left, right, DyadOp::Equal, OpName::DyadicEqual)
}

/// Return 1 where `left` differs from `right`, 0 elsewhere.
pub fn dyadic_not_equal(runtime: &mut Runtime, left: Value, right: Value) -> (r: Value)
    requires
        old(runtime).wf(),
    ensures
        verb_frame(*old(runtime), *final(runtime)),
        r@ == broadcast_model(DyadOp::NotEqual, left@, right@),
        final(runtime).diags() == old(runtime).diags() + broadcast_diags(DyadOp::NotEqual, left@, right@, OpName::DyadicNotEqual),
{
    broadcast_verb(runtime, left, right, DyadOp::NotEqual, OpName::DyadicNotEqual)
}

/// Bitwise AND of `left` and `right`.
pub fn dyadic_and(runtime: &mut Runtime, left: Value, right: Value) -> (r: Value)
    requires
        old(runtime).wf(),
    ensures
        verb_frame(*old(runtime), *final(runtime)),
        r@ == broadcast_model(DyadOp::And, left@, right@),
        final(runtime).diags() == old(runtime).diags() + broadcast_diags(DyadOp::And, left@, right@, OpName::DyadicAnd),
{
    broadcast_verb(runtime, left, right, DyadOp::And, OpName::DyadicAnd)
}

/// Bitwise OR of `left` and `right`.
pub fn dyadic_or(runtime: &mut Runtime, left: Value, right: Value) -> (r: Value)
    requires
        old(runtime).wf(),
    ensures
        verb_frame(*old(runtime), *final(runtime)),
        r@ == broadcast_model(DyadOp::Or, left@, right@),
        final(runtime).diags() == old(runtime).diags() + broadcast_diags(DyadOp::Or, left@, right@, OpName::DyadicOr),
{
    broadcast_verb(runtime, left, right, DyadOp::Or, OpName::DyadicOr)
}

/// The product of `left` and `right`.
pub fn dyadic_product(runtime: &mut Runtime, left: Value, right: Value) -> (r: Value)
    requires
        old(runtime).wf(),
    ensures
        verb_frame(*old(runtime), *final(runtime)),
        r@ == broadcast_model(DyadOp::Mul, left@, right@),
        final(runtime).diags() == old(runtime).diags() + broadcast_diags(DyadOp::Mul, left@, right@, OpName::DyadicProduct),
{
    broadcast_verb(runtime, left, right, DyadOp::Mul, OpName::DyadicProduct)
}

/// The monadic dispatch table: index 2 negates, 3 enumerates, 4 counts,
/// 5 enlists, 6 takes the first element, 10 reverses; every other index
/// is a fault (unknown verb, or a verb whose monadic form is
/// unimplemented).
pub open spec fn monadic_model(idx: int, v: ValModel) -> ValModel {
    if idx == 2 {
        negate_model(v)
    } else if idx == 3 {
        enumerate_model(v)
    } else if idx == 4 {
        count_model(v)
    } else if idx == 5 {
        enlist_model(v)
    } else if idx == 6 {
        first_model(v)
    } else if idx == 10 {
        reverse_model(v)
    } else {
        ValModel::Error
    }
}

/// The dyadic dispatch table, in verb order: add, subtract, modulo,
/// take, concatenate, index-at, equal, not-equal, and, or, multiply;
/// any other index is a fault.
pub open spec fn dyadic_model(idx: int, a: ValModel, b: ValModel) -> ValModel {
    if idx == 1 {
        add_model(a, b)
    } else if idx == 2 {
        subtract_model(a, b)
    } else if idx == 3 {
        modulo_model(a, b)
    } else if idx == 4 {
        take_model(a, b)
    } else if idx == 5 {
        concatenate_model(a, b)
    } else if idx == 6 {
        index_at_model(a, b)
    } else if idx == 7 {
        broadcast_model(DyadOp::Equal, a, b)
    } else if idx == 8 {
        broadcast_model(DyadOp::NotEqual, a, b)
    } else if idx == 9 {
        broadcast_model(DyadOp::And, a, b)
    } else if idx == 10 {
        broadcast_model(DyadOp::Or, a, b)
    } else if idx == 11 {
        broadcast_model(DyadOp::Mul, a, b)
    } else {
        ValModel::Error
    }
}

/// Apply the monadic verb at `verb_index` to `value`.
pub fn apply_monadic_verb(runtime: &mut Runtime, verb_index: usize, value: Value) -> (r: Value)
    requires
        old(runtime).wf(),
    ensures
        verb_frame(*old(runtime), *final(runtime)),
        r@ == monadic_model(verb_index as int, value@),
        final(runtime).diags() == old(runtime).diags() + monadic_diags(verb_index as int, value@),
{
    if verb_index == 2 {
        monadic_negate(runtime, value)
    } else if verb_index == 3 {
        monadic_enumerate(runtime, value)
    } else if verb_index == 4 {
        monadic_count(runtime, value)
    } else if verb_index == 5 {
        monadic_enlist(runtime, value)
    } else if verb_index == 6 {
        monadic_first(runtime, value)
    } else if verb_index == 10 {
        monadic_reverse(runtime, value)
    } else if verb_index == 1 || verb_index == 7 || verb_index == 8 || verb_index == 9
        || verb_index == 11 {
        let r = runtime.not_implemented_error(OpName::MonadicNotImplemented);
        proof {
            lemma_prefix_push(old(runtime).diags(), final(runtime).diags().last());
        }
        r
    } else {
        let r = runtime.domain_error(OpName::MonadicNotAVerb);
        proof {
            lemma_prefix_push(old(runtime).diags(), final(runtime).diags().last());
        }
        r
    }
}

/// Apply the dyadic verb at `verb_index` to `left` and `right`.
pub fn apply_dyadic_verb(runtime: &mut Runtime, verb_index: usize, left: Value, right: Value) -> (r:
    Value)
    requires
        old(runtime).wf(),
    ensures
        verb_frame(*old(runtime), *final(runtime)),
        r@ == dyadic_model(verb_index as int, left@, right@),
        final(runtime).diags() == old(runtime).diags() + dyadic_diags(verb_index as int, left@, right@),
{
    if verb_index == 1 {
        dyadic_add(runtime, left, right)
    } else if verb_index == 2 {
        dyadic_subtract(runtime, left, right)
    } else if verb_index == 3 {
        dyadic_modulo(runtime, left, right)
    } else if verb_index == 4 {
        dyadic_take(runtime, left, right)
    } else if verb_index == 5 {
        dyadic_concatenate(runtime, left, right)
    } else if verb_index == 6 {
        dyadic_index_at(runtime, left, right)
    } else if verb_index == 7 {
        dyadic_equal(runtime, left, right)
    } else if verb_index == 8 {
        dyadic_not_equal(runtime, left, right)
    } else if verb_index == 9 {
        dyadic_and(runtime, left, right)
    } else if verb_index == 10 {
        dyadic_or(runtime, left, right)
    } else if verb_index == 11 {
        dyadic_product(runtime, left, right)
    } else {
        let r = runtime.domain_error(OpName::DyadicNotAVerb);
        proof {
            lemma_prefix_push(old(runtime).diags(), final(runtime).diags().last());
        }
        r
    }
}

/// The running value of the fold after the first `k` elements: the
/// accumulator starts at the atom 0 and the verb is applied left to
/// right.
pub open spec fn over_model(idx: int, s: Seq<i64>, k: int) -> ValModel
    decreases k,
{
    if k <= 0 {
        ValModel::Atom(0)
    } else {
        dyadic_model(idx, over_model(idx, s, k - 1), ValModel::Atom(s[k - 1]))
    }
}

/// `f/v`: an atom is returned unchanged; a vector is folded from the
/// atom 0; the error sentinel passes through.
pub open spec fn adverb_over_model(idx: int, v: ValModel) -> ValModel {
    match v {
        ValModel::Atom(_) => v,
        ValModel::Vector(s) => over_model(idx, s, s.len() as int),
        ValModel::Error => ValModel::Error,
    }
}

/// The scan state after the first `k` elements of a non-empty vector
/// (`k` at least 1): the running accumulator and the output so far.  The
/// first output element is the first vector element itself; afterwards,
/// an application that yields an atom extends both, and any other
/// outcome poisons the accumulator and records 0 — the scan does not
/// abort, so a mid-sequence failure can hide in the output.
pub open spec fn scan_model(idx: int, s: Seq<i64>, k: int) -> (ValModel, Seq<i64>)
    recommends
        1 <= k <= s.len(),
    decreases k,
{
    if k <= 1 {
        (ValModel::Atom(s[0]), seq![s[0]])
    } else {
        let prev = scan_model(idx, s, k - 1);
        match dyadic_model(idx, prev.0, ValModel::Atom(s[k - 1])) {
            ValModel::Atom(x) => (ValModel::Atom(x), prev.1.push(x)),
            _ => (ValModel::Error, prev.1.push(0)),
        }
    }
}

/// `f\v`: an atom is returned unchanged; an empty vector scans to an
/// empty vector; a non-empty vector scans to its intermediate
/// accumulator values; the error sentinel passes through.
pub open spec fn adverb_scan_model(idx: int, v: ValModel) -> ValModel {
    match v {
        ValModel::Atom(_) => v,
        ValModel::Vector(s) => if s.len() == 0 {
            ValModel::Vector(Seq::empty())
        } else {
            ValModel::Vector(scan_model(idx, s, s.len() as int).1)
        },
        ValModel::Error => ValModel::Error,
    }
}

/// The adverb dispatch table: index 1 folds, index 2 scans, and any
/// other index is the identity fallback.
pub open spec fn adverb_model(adverb_idx: int, verb_idx: int, v: ValModel) -> ValModel {
    if adverb_idx == 1 {
        adverb_over_model(verb_idx, v)
    } else if adverb_idx == 2 {
        adverb_scan_model(verb_idx, v)
    } else {
        v
    }
}

/// The diagnostics the fold emits: those of each application, in
/// order.
pub open spec fn over_diags(idx: int, s: Seq<i64>, k: int) -> Seq<Diagnostic>
    decreases k,
{
    if k <= 0 {
        Seq::empty()
    } else {
        over_diags(idx, s, k - 1) + dyadic_diags(
            idx,
            over_model(idx, s, k - 1),
            ValModel::Atom(s[k - 1]),
        )
    }
}

pub open spec fn adverb_over_diags(idx: int, v: ValModel) -> Seq<Diagnostic> {
    match v {
        ValModel::Vector(s) => over_diags(idx, s, s.len() as int),
        _ => Seq::empty(),
    }
}

/// The diagnostics the scan emits: those of each application after the
/// first element, in order.
pub open spec fn scan_diags(idx: int, s: Seq<i64>, k: int) -> Seq<Diagnostic>
    decreases k,
{
    if k <= 1 {
        Seq::empty()
    } else {
        scan_diags(idx, s, k - 1) + dyadic_diags(
            idx,
            scan_model(idx, s, k - 1).0,
            ValModel::Atom(s[k - 1]),
        )
    }
}

pub open spec fn adverb_scan_diags(idx: int, v: ValModel) -> Seq<Diagnostic> {
    match v {
        ValModel::Vector(s) => if s.len() == 0 {
            Seq::empty()
        } else {
            scan_diags(idx, s, s.len() as int)
        },
        _ => Seq::empty(),
    }
}

pub open spec fn adverb_diags(adverb_idx: int, verb_idx: int, v: ValModel) -> Seq<Diagnostic> {
    if adverb_idx == 1 {
        adverb_over_diags(verb_idx, v)
    } else if adverb_idx == 2 {
        adverb_scan_diags(verb_idx, v)
    } else {
        Seq::empty()
    }
}

/// Fold `value` with the verb at `verb_index`.
pub fn adverb_over(runtime: &mut Runtime, verb_index: usize, value: Value) -> (r: Value)
    requires
        old(runtime).wf(),
    ensures
        verb_frame(*old(runtime), *final(runtime)),
        r@ == adverb_over_model(verb_index as int, value@),
        final(runtime).diags() == old(runtime).diags() + adverb_over_diags(verb_index as int, value@),
{
    match value {
        Value::Atom(_) => {
            proof {
                lemma_prefix_refl(old(runtime).diags());
            }
            value
        },
        Value::Vector(vector) => {
            let len = vector.len();
            let mut result: Value = Value::Atom(0);
            let mut k: usize = 0;
            proof {
                lemma_prefix_refl(old(runtime).diags());
            }
            while k < len
                invariant
                    k <= len,
                    len == vector@.len(),
                    runtime.wf(),
                    runtime.globals_model() == old(runtime).globals_model(),
                    old(runtime).diags().is_prefix_of(runtime.diags()),
                    runtime.diags() == old(runtime).diags() + over_diags(
                        verb_index as int,
                        vector@,
                        k as int,
                    ),
                    result@ == over_model(verb_index as int, vector@, k as int),
                decreases len - k,
            {
                let ghost pre = runtime.diags();
                result = apply_dyadic_verb(runtime, verb_index, result, Value::Atom(vector[k]));
                proof {
                    lemma_prefix_trans(old(runtime).diags(), pre, runtime.diags());
                    assert(runtime.diags() =~= old(runtime).diags() + over_diags(
                        verb_index as int,
                        vector@,
                        k + 1,
                    ));
                }
                k += 1;
            }
            result
        },
        Value::Error => {
            proof {
                lemma_prefix_refl(old(runtime).diags());
            }
            Value::Error
        },
    }
}

/// Scan `value` with the verb at `verb_index`.
pub fn adverb_scan(runtime: &mut Runtime, verb_index: usize, value: Value) -> (r: Value)
    requires
        old(runtime).wf(),
    ensures
        verb_frame(*old(runtime), *final(runtime)),
        r@ == adverb_scan_model(verb_index as int, value@),
        final(runtime).diags() == old(runtime).diags() + adverb_scan_diags(verb_index as int, value@),
{
    match value {
        Value::Atom(_) => {
            proof {
                lemma_prefix_refl(old(runtime).diags());
            }
            value
        },
        Value::Vector(vector) => {
            proof {
                lemma_prefix_refl(old(runtime).diags());
            }
            let len = vector.len();
            if len == 0 {
                let empty: Vec<i64> = Vec::new();
                proof {
                    assert(empty@ =~= Seq::<i64>::empty());
                }
                return Value::Vector(Rc::new(empty));
            }

            let first = vector[0];
            let mut out: Vec<i64> = Vec::new();
            out.push(first);
            let mut state: Value = Value::Atom(first);
            let mut k: usize = 1;
            proof {
                assert(out@ =~= seq![vector@[0]]);
            }
            while k < len
                invariant
                    1 <= k <= len,
                    len == vector@.len(),
                    runtime.wf(),
                    runtime.globals_model() == old(runtime).globals_model(),
                    old(runtime).diags().is_prefix_of(runtime.diags()),
                    runtime.diags() == old(runtime).diags() + scan_diags(
                        verb_index as int,
                        vector@,
                        k as int,
                    ),
                    state@ == scan_model(verb_index as int, vector@, k as int).0,
                    out@ == scan_model(verb_index as int, vector@, k as int).1,
                decreases len - k,
            {
                let ghost pre = runtime.diags();
                let applied = apply_dyadic_verb(
                    runtime,
                    verb_index,
                    state,
                    Value::Atom(vector[k]),
                );
                proof {
                    lemma_prefix_trans(old(runtime).diags(), pre, runtime.diags());
                    assert(runtime.diags() =~= old(runtime).diags() + scan_diags(
                        verb_index as int,
                        vector@,
                        k + 1,
                    ));
                }
                match applied {
                    Value::Atom(x) => {
                        state = Value::Atom(x);
                        out.push(x);
                    },
                    _ => {
                        state = Value::Error;
                        out.push(0);
                    },
                }
                k += 1;
            }
            Value::Vector(Rc::new(out))
        },
        Value::Error => {
            proof {
                lemma_prefix_refl(old(runtime).diags());
            }
            Value::Error
        },
    }
}

/// Apply the adverb at `adverb_index`, carrying the verb at
/// `verb_index`, to `value`.
pub fn apply_adverb(runtime: &mut Runtime, adverb_index: usize, verb_index: usize, value: Value) -> (
    r: Value)
    requires
        old(runtime).wf(),
    ensures
        verb_frame(*old(runtime), *final(runtime)),
        r@ == adverb_model(adverb_index as int, verb_index as int, value@),
        final(runtime).diags() == old(runtime).diags() + adverb_diags(adverb_index as int, verb_index as int, value@),
{
    if adverb_index == 1 {
        adverb_over(runtime, verb_index, value)
    } else if adverb_index == 2 {
        adverb_scan(runtime, verb_index, value)
    } else {
        proof {
            lemma_prefix_refl(old(runtime).diags());
        }
        value
    }
}

} // verus!
