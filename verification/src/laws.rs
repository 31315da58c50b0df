use vstd::prelude::*;
use crate::value::{dyad_op_model, DyadOp, ValModel};
use crate::verbs::{
    adverb_over_model, adverb_scan_model, concatenate_model, dyadic_model, enlist_model,
    enumerate_model, reverse_model, take_model,
};

verus! {

/// Enumerating a non-negative atom `n` yields the vector `0 1 ... n-1`,
/// of length exactly `n`; enumerating a negative atom is a fault.
pub proof fn lemma_enumerate_law(n: i64)
    ensures
        n >= 0 ==> (enumerate_model(ValModel::Atom(n)) matches ValModel::Vector(s) && s.len()
            == n && (forall|i: int| 0 <= i < n ==> s[i] == i as i64)),
        n < 0 ==> enumerate_model(ValModel::Atom(n)) is Error,
{
}

/// Reversing a vector twice gives the vector back.
pub proof fn lemma_reverse_involution(s: Seq<i64>)
    ensures
        reverse_model(reverse_model(ValModel::Vector(s))) == ValModel::Vector(s),
{
    assert(s.reverse().reverse() =~= s);
}

/// Taking `n` elements from a non-empty vector yields a vector of
/// length exactly `n` whose element at `i` is the source element at
/// `i` modulo the source length.
pub proof fn lemma_take_law(n: i64, s: Seq<i64>)
    requires
        n >= 0,
        s.len() > 0,
    ensures
        (take_model(ValModel::Atom(n), ValModel::Vector(s)) matches ValModel::Vector(t) && t.len()
            == n && (forall|i: int| 0 <= i < n ==> t[i] == s[i % (s.len() as int)])),
{
}

/// Concatenating the enlistments of two atoms yields a vector of length
/// two holding exactly those atoms.
pub proof fn lemma_concatenate_enlist_law(x: i64, y: i64)
    ensures
        (concatenate_model(enlist_model(ValModel::Atom(x)), enlist_model(ValModel::Atom(y)))
            matches ValModel::Vector(s) && s.len() == 2 && s[0] == x && s[1] == y),
{
}

/// Every operation the broadcasting combinator accepts is commutative
/// on the underlying integers — the soundness of broadcasting an atom on
/// the left by swapping the operands.
pub proof fn lemma_dyad_op_commutes(op: DyadOp, a: i64, b: i64)
    ensures
        dyad_op_model(op, a, b) == dyad_op_model(op, b, a),
{
    match op {
        DyadOp::And => {
            assert(a & b == b & a) by (bit_vector);
        },
        DyadOp::Or => {
            assert(a | b == b | a) by (bit_vector);
        },
        DyadOp::Mul => {
            assert(a * b == b * a) by (nonlinear_arith);
        },
        _ => {
        },
    }
}

/// The elementwise commutative verbs — add, equal, not-equal, and, or,
/// multiply — satisfy `f(a, b) == f(b, a)` when both operands are
/// atoms.
pub proof fn lemma_atom_verbs_commute(idx: int, a: i64, b: i64)
    requires
        idx == 1 || idx == 7 || idx == 8 || idx == 9 || idx == 10 || idx == 11,
    ensures
        dyadic_model(idx, ValModel::Atom(a), ValModel::Atom(b)) == dyadic_model(
            idx,
            ValModel::Atom(b),
            ValModel::Atom(a),
        ),
{
    lemma_dyad_op_commutes(DyadOp::Add, a, b);
    lemma_dyad_op_commutes(DyadOp::Equal, a, b);
    lemma_dyad_op_commutes(DyadOp::NotEqual, a, b);
    lemma_dyad_op_commutes(DyadOp::And, a, b);
    lemma_dyad_op_commutes(DyadOp::Or, a, b);
    lemma_dyad_op_commutes(DyadOp::Mul, a, b);
}

/// Folding over an empty vector yields the zero seed unchanged, and
/// scanning an empty vector yields an empty vector — neither is a
/// fault, whatever the verb.
pub proof fn lemma_fold_scan_empty_law(idx: int)
    ensures
        adverb_over_model(idx, ValModel::Vector(Seq::empty())) == ValModel::Atom(0),
        adverb_scan_model(idx, ValModel::Vector(Seq::empty())) == ValModel::Vector(
            Seq::<i64>::empty(),
        ),
{
}

} // verus!
