use vstd::prelude::*;
use crate::runtime::{noun_model, Diagnostic, ErrorKind, OpName, Runtime};
use crate::token::{
    adverb_index, adverb_index_model, token_wf, verb_index, verb_index_model, Token, B_LOWER_A,
};
use crate::value::{ValModel, Value};
use crate::verbs::{
    adverb_diags, adverb_model, apply_adverb, apply_dyadic_verb, apply_monadic_verb, dyadic_diags,
    dyadic_model, lemma_prefix_push, lemma_prefix_refl, lemma_prefix_trans, monadic_diags,
    monadic_model, one_diag,
};
use vstd::slice::slice_subrange;
use std::rc::Rc;

verus! {

broadcast use vstd::seq_lib::group_seq_properties;

/// Whether the token is a number literal.
fn is_number_token(t: &Token) -> (r: bool)
    ensures
        r == (*t is Number),
{
    matches!(t, Token::Number(_))
}

/// The first position at or after `i` that does not hold a number
/// token: the end of the literal run that begins at `i`.
pub open spec fn strand_end(tokens: Seq<Token>, i: int) -> int
    recommends
        0 <= i <= tokens.len(),
    decreases tokens.len() - i when 0 <= i <= tokens.len()
{
    if i >= tokens.len() || !(tokens[i] is Number) {
        i
    } else {
        strand_end(tokens, i + 1)
    }
}

pub proof fn lemma_strand_end_bounds(tokens: Seq<Token>, i: int)
    requires
        0 <= i <= tokens.len(),
    ensures
        i <= strand_end(tokens, i) <= tokens.len(),
        forall|k: int| i <= k < strand_end(tokens, i) ==> #[trigger] tokens[k] is Number,
        strand_end(tokens, i) < tokens.len() ==> !(tokens[strand_end(tokens, i)] is Number),
    decreases tokens.len() - i,
{
    if i < tokens.len() && tokens[i] is Number {
        lemma_strand_end_bounds(tokens, i + 1);
    }
}

/// The integers of the literal run `tokens[0 .. m)`.
pub open spec fn strand_values(tokens: Seq<Token>, m: int) -> Seq<i64> {
    Seq::new(m as nat, |i: int| tokens[i]->Number_0)
}

/// The grammar, matched most specific pattern first, evaluated right to
/// left: what evaluating `tokens` against `globals` yields — the global
/// bindings afterwards (assignment is the only form that moves them) and
/// the value.  The error sentinel stands for every failure; an error in
/// a right subexpression short-circuits the form around it.
///
/// The forms, in match order: an empty line is ungrammatical; a single
/// noun token denotes its value; a run of two or more adjacent number
/// literals denotes a vector, which stands alone or is the left operand
/// of the verb that follows it; a verb with an adverb applies the
/// modified verb to the rest; a verb alone applies monadically to the
/// rest; a global followed by the assignment marker binds the rest's
/// value; otherwise one single noun token, a verb symbol and the rest
/// form the dyadic application — the left noun of a dyadic form is one
/// literal run or one token, never a parenthesized expression, so a
/// chain of verbs associates strictly to the right.
pub open spec fn eval_model(globals: Seq<ValModel>, tokens: Seq<Token>) -> (
    Seq<ValModel>,
    ValModel,
)
    decreases tokens.len() via eval_model_decreases
{
    if tokens.len() == 0 {
        (globals, ValModel::Error)
    } else if tokens.len() == 1 {
        (globals, noun_model(globals, tokens[0]))
    } else if tokens[0] is Number && tokens[1] is Number {
        let m = strand_end(tokens, 0);
        let left = ValModel::Vector(strand_values(tokens, m));
        if m == tokens.len() {
            (globals, left)
        } else if tokens[m] is Symbol {
            let sub = eval_model(globals, tokens.skip(m + 1));
            if sub.1 is Error {
                sub
            } else if verb_index_model(tokens[m]->Symbol_0) == 0 {
                (sub.0, ValModel::Error)
            } else {
                (sub.0, dyadic_model(verb_index_model(tokens[m]->Symbol_0), left, sub.1))
            }
        } else {
            (globals, ValModel::Error)
        }
    } else if tokens[0] is Symbol && tokens[1] is Symbol && verb_index_model(tokens[0]->Symbol_0)
        != 0 && adverb_index_model(tokens[1]->Symbol_0) != 0 {
        let sub = eval_model(globals, tokens.skip(2));
        if sub.1 is Error {
            sub
        } else {
            (
                sub.0,
                adverb_model(
                    adverb_index_model(tokens[1]->Symbol_0),
                    verb_index_model(tokens[0]->Symbol_0),
                    sub.1,
                ),
            )
        }
    } else if tokens[0] is Symbol && verb_index_model(tokens[0]->Symbol_0) != 0 {
        let sub = eval_model(globals, tokens.skip(1));
        if sub.1 is Error {
            sub
        } else {
            (sub.0, monadic_model(verb_index_model(tokens[0]->Symbol_0), sub.1))
        }
    } else if tokens[0] is Global && tokens[1] is Colon {
        let sub = eval_model(globals, tokens.skip(2));
        if sub.1 is Error {
            sub
        } else {
            (sub.0.update(tokens[0]->Global_0 - B_LOWER_A, sub.1), sub.1)
        }
    } else if tokens[1] is Symbol {
        let left = noun_model(globals, tokens[0]);
        if left is Error {
            (globals, ValModel::Error)
        } else {
            let sub = eval_model(globals, tokens.skip(2));
            if sub.1 is Error {
                sub
            } else if verb_index_model(tokens[1]->Symbol_0) == 0 {
                (sub.0, ValModel::Error)
            } else {
                (sub.0, dyadic_model(verb_index_model(tokens[1]->Symbol_0), left, sub.1))
            }
        }
    } else {
        (globals, ValModel::Error)
    }
}

#[via_fn]
proof fn eval_model_decreases(globals: Seq<ValModel>, tokens: Seq<Token>) {
    if tokens.len() >= 2 && tokens[0] is Number && tokens[1] is Number {
        lemma_strand_end_bounds(tokens, 0);
    }
}


/// The diagnostics evaluation emits, in order of detection: those of
/// the right subexpression first, then the one the form around it
/// detects, if any.
pub open spec fn eval_diags(globals: Seq<ValModel>, tokens: Seq<Token>) -> Seq<Diagnostic>
    decreases tokens.len() via eval_diags_decreases
{
    if tokens.len() == 0 {
        one_diag(OpName::Evaluate, ErrorKind::Parse)
    } else if tokens.len() == 1 {
        if noun_model(globals, tokens[0]) is Error {
            one_diag(OpName::EvaluateNoun, ErrorKind::Parse)
        } else {
            Seq::empty()
        }
    } else if tokens[0] is Number && tokens[1] is Number {
        let m = strand_end(tokens, 0);
        let left = ValModel::Vector(strand_values(tokens, m));
        if m == tokens.len() {
            Seq::empty()
        } else if tokens[m] is Symbol {
            let sub = eval_model(globals, tokens.skip(m + 1));
            let subd = eval_diags(globals, tokens.skip(m + 1));
            if sub.1 is Error {
                subd
            } else if verb_index_model(tokens[m]->Symbol_0) == 0 {
                subd + one_diag(OpName::Evaluate, ErrorKind::Domain)
            } else {
                subd + dyadic_diags(verb_index_model(tokens[m]->Symbol_0), left, sub.1)
            }
        } else {
            one_diag(OpName::Evaluate, ErrorKind::Parse)
        }
    } else if tokens[0] is Symbol && tokens[1] is Symbol && verb_index_model(tokens[0]->Symbol_0)
        != 0 && adverb_index_model(tokens[1]->Symbol_0) != 0 {
        let sub = eval_model(globals, tokens.skip(2));
        let subd = eval_diags(globals, tokens.skip(2));
        if sub.1 is Error {
            subd
        } else {
            subd + adverb_diags(
                adverb_index_model(tokens[1]->Symbol_0),
                verb_index_model(tokens[0]->Symbol_0),
                sub.1,
            )
        }
    } else if tokens[0] is Symbol && verb_index_model(tokens[0]->Symbol_0) != 0 {
        let sub = eval_model(globals, tokens.skip(1));
        let subd = eval_diags(globals, tokens.skip(1));
        if sub.1 is Error {
            subd
        } else {
            subd + monadic_diags(verb_index_model(tokens[0]->Symbol_0), sub.1)
        }
    } else if tokens[0] is Global && tokens[1] is Colon {
        eval_diags(globals, tokens.skip(2))
    } else if tokens[1] is Symbol {
        let left = noun_model(globals, tokens[0]);
        if left is Error {
            one_diag(OpName::Evaluate, ErrorKind::Parse)
        } else {
            let sub = eval_model(globals, tokens.skip(2));
            let subd = eval_diags(globals, tokens.skip(2));
            if sub.1 is Error {
                subd
            } else if verb_index_model(tokens[1]->Symbol_0) == 0 {
                subd + one_diag(OpName::Evaluate, ErrorKind::Domain)
            } else {
                subd + dyadic_diags(verb_index_model(tokens[1]->Symbol_0), left, sub.1)
            }
        }
    } else {
        one_diag(OpName::Evaluate, ErrorKind::Parse)
    }
}

#[via_fn]
proof fn eval_diags_decreases(globals: Seq<ValModel>, tokens: Seq<Token>) {
    if tokens.len() >= 2 && tokens[0] is Number && tokens[1] is Number {
        lemma_strand_end_bounds(tokens, 0);
    }
}

/// Evaluate a token sequence against the runtime's globals.
pub fn evaluate_expression(runtime: &mut Runtime, tokens: &[Token]) -> (r: Value)
    requires
        old(runtime).wf(),
        forall|k: int| 0 <= k < tokens@.len() ==> token_wf(#[trigger] tokens@[k]),
    ensures
        final(runtime).wf(),
        old(runtime).diags().is_prefix_of(final(runtime).diags()),
        final(runtime).globals_model() == eval_model(old(runtime).globals_model(), tokens@).0,
        r@ == eval_model(old(runtime).globals_model(), tokens@).1,
        final(runtime).diags() == old(runtime).diags() + eval_diags(
            old(runtime).globals_model(),
            tokens@,
        ),
    decreases tokens@.len(),
{
    let n = tokens.len();

    // An empty line is ungrammatical.
    if n == 0 {
        let r = runtime.parse_error(OpName::Evaluate);
        proof {
            lemma_prefix_push(old(runtime).diags(), final(runtime).diags().last());
        }
        return r;
    }

    // A single token must be a noun.
    if n == 1 {
        let v = runtime.noun_from_token(&tokens[0]);
        if v.is_error() {
            let r = runtime.parse_error(OpName::EvaluateNoun);
            proof {
                lemma_prefix_push(old(runtime).diags(), final(runtime).diags().last());
            }
            return r;
        }
        proof {
            lemma_prefix_refl(old(runtime).diags());
        }
        return v;
    }

    let t0 = tokens[0];
    let t1 = tokens[1];

    // A run of two or more adjacent number literals: a vector, standing
    // alone or as the left operand of the verb that follows it.
    if is_number_token(&t0) && is_number_token(&t1) {
        proof {
            lemma_strand_end_bounds(tokens@, 0);
        }
        let mut m: usize = 0;
        let mut values: Vec<i64> = Vec::new();
        while m < n && is_number_token(&tokens[m])
            invariant
                0 <= m <= n,
                n == tokens@.len(),
                forall|k: int| 0 <= k < m ==> #[trigger] tokens@[k] is Number,
                m <= strand_end(tokens@, 0),
                values@ =~= strand_values(tokens@, m as int),
            decreases n - m,
        {
            match tokens[m] {
                Token::Number(x) => {
                    values.push(x);
                },
                _ => {
                    proof {
                        assert(false);
                    }
                },
            }
            proof {
                lemma_strand_end_bounds(tokens@, 0);
                assert(values@ =~= strand_values(tokens@, m + 1));
                assert(m < strand_end(tokens@, 0));
            }
            m += 1;
        }
        proof {
            lemma_strand_end_bounds(tokens@, 0);
            assert(m == strand_end(tokens@, 0));
        }
        let left_value = Value::Vector(Rc::new(values));

        if m == n {
            proof {
                lemma_prefix_refl(old(runtime).diags());
            }
            return left_value;
        }

        match tokens[m] {
            Token::Symbol(op_symbol) => {
                let rest = slice_subrange(tokens, m + 1, n);
                proof {
                    assert(rest@ =~= tokens@.skip(m + 1));
                    assert forall|k: int| 0 <= k < rest@.len() implies token_wf(
                        #[trigger] rest@[k],
                    ) by {
                        assert(rest@[k] == tokens@[k + m + 1]);
                    }
                }
                let right_value = evaluate_expression(runtime, rest);
                if right_value.is_error() {
                    return right_value;
                }

                let dyadic_idx = verb_index(op_symbol);
                if dyadic_idx == 0 {
                    let ghost mid = runtime.diags();
                    let r = runtime.domain_error(OpName::Evaluate);
                    proof {
                        lemma_prefix_push(mid, final(runtime).diags().last());
                        lemma_prefix_trans(old(runtime).diags(), mid, final(runtime).diags());
                    }
                    return r;
                }

                let ghost mid = runtime.diags();
                let r = apply_dyadic_verb(runtime, dyadic_idx, left_value, right_value);
                proof {
                    lemma_prefix_trans(old(runtime).diags(), mid, final(runtime).diags());
                }
                return r;
            },
            _ => {
                let r = runtime.parse_error(OpName::Evaluate);
                proof {
                    lemma_prefix_push(old(runtime).diags(), final(runtime).diags().last());
                }
                return r;
            },
        }
    }

    // A verb, alone or under an adverb, applied to everything rightward.
    match t0 {
        Token::Symbol(verb_symbol) => {
            let verb_idx = verb_index(verb_symbol);
            if verb_idx != 0 {
                let adverb_idx = match t1 {
                    Token::Symbol(adverb_symbol) => adverb_index(adverb_symbol),
                    _ => 0,
                };
                if adverb_idx != 0 {
                    let rest = slice_subrange(tokens, 2, n);
                    proof {
                        assert(rest@ =~= tokens@.skip(2));
                        assert forall|k: int| 0 <= k < rest@.len() implies token_wf(
                            #[trigger] rest@[k],
                        ) by {
                            assert(rest@[k] == tokens@[k + 2]);
                        }
                    }
                    let operand = evaluate_expression(runtime, rest);
                    if operand.is_error() {
                        return operand;
                    }
                    let ghost mid = runtime.diags();
                    let r = apply_adverb(runtime, adverb_idx, verb_idx, operand);
                    proof {
                        lemma_prefix_trans(old(runtime).diags(), mid, final(runtime).diags());
                    }
                    return r;
                } else {
                    let rest = slice_subrange(tokens, 1, n);
                    proof {
                        assert(rest@ =~= tokens@.skip(1));
                        assert forall|k: int| 0 <= k < rest@.len() implies token_wf(
                            #[trigger] rest@[k],
                        ) by {
                            assert(rest@[k] == tokens@[k + 1]);
                        }
                    }
                    let operand = evaluate_expression(runtime, rest);
                    if operand.is_error() {
                        return operand;
                    }
                    let ghost mid = runtime.diags();
                    let r = apply_monadic_verb(runtime, verb_idx, operand);
                    proof {
                        lemma_prefix_trans(old(runtime).diags(), mid, final(runtime).diags());
                    }
                    return r;
                }
            }
        },
        _ => {},
    }

    // Assignment: a global, the marker, then the bound expression.
    match (t0, t1) {
        (Token::Global(name), Token::Colon) => {
            let rest = slice_subrange(tokens, 2, n);
            proof {
                assert(rest@ =~= tokens@.skip(2));
                assert forall|k: int| 0 <= k < rest@.len() implies token_wf(
                    #[trigger] rest@[k],
                ) by {
                    assert(rest@[k] == tokens@[k + 2]);
                }
            }
            let right_value = evaluate_expression(runtime, rest);
            if right_value.is_error() {
                return right_value;
            }
            let index = (name - B_LOWER_A) as usize;
            let ghost mid = runtime.diags();
            let r = runtime.assign_global(index, right_value);
            proof {
                lemma_prefix_trans(old(runtime).diags(), mid, final(runtime).diags());
            }
            return r;
        },
        _ => {},
    }

    // The general dyadic form: one noun token, a verb, the rest.
    match t1 {
        Token::Symbol(op_symbol) => {
            let left_value = runtime.noun_from_token(&t0);
            if left_value.is_error() {
                let r = runtime.parse_error(OpName::Evaluate);
                proof {
                    lemma_prefix_push(old(runtime).diags(), final(runtime).diags().last());
                }
                return r;
            }

            let rest = slice_subrange(tokens, 2, n);
            proof {
                assert(rest@ =~= tokens@.skip(2));
                assert forall|k: int| 0 <= k < rest@.len() implies token_wf(
                    #[trigger] rest@[k],
                ) by {
                    assert(rest@[k] == tokens@[k + 2]);
                }
            }
            let right_value = evaluate_expression(runtime, rest);
            if right_value.is_error() {
                return right_value;
            }

            let dyadic_idx = verb_index(op_symbol);
            if dyadic_idx == 0 {
                let ghost mid = runtime.diags();
                let r = runtime.domain_error(OpName::Evaluate);
                proof {
                    lemma_prefix_push(mid, final(runtime).diags().last());
                    lemma_prefix_trans(old(runtime).diags(), mid, final(runtime).diags());
                }
                return r;
            }

            let ghost mid = runtime.diags();
            let r = apply_dyadic_verb(runtime, dyadic_idx, left_value, right_value);
            proof {
                lemma_prefix_trans(old(runtime).diags(), mid, final(runtime).diags());
            }
            return r;
        },
        _ => {},
    }

    // Anything else is ungrammatical.
    let r = runtime.parse_error(OpName::Evaluate);
    proof {
        lemma_prefix_push(old(runtime).diags(), final(runtime).diags().last());
    }
    r
}

} // verus!
