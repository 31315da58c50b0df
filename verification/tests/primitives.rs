use std::rc::Rc;

use ksimple::eval::evaluate_expression;
use ksimple::runtime::{ErrorKind, Runtime};
use ksimple::token::{adverb_index, tokenize_line, verb_index, Token};
use ksimple::value::Value;
use ksimple::verbs::{dyadic_modulo, dyadic_index_at};

fn eval_line(rt: &mut Runtime, line: &str) -> Value {
    let tokens = tokenize_line(line.as_bytes()).unwrap();
    evaluate_expression(rt, &tokens)
}

fn shown(rt: &mut Runtime, line: &str) -> String {
    let value = eval_line(rt, line);
    String::from_utf8(value.render()).unwrap()
}

#[test]
fn minus_after_noun_is_subtraction() {
    let tokens = tokenize_line(b"a-5").unwrap();
    assert_eq!(
        tokens,
        vec![Token::Global(b'a'), Token::Symbol(b'-'), Token::Number(5)]
    );
    let mut rt = Runtime::new();
    assert_eq!(shown(&mut rt, "1-5"), "-4");
}

#[test]
fn minus_at_line_start_is_a_negative_literal() {
    let tokens = tokenize_line(b"-5").unwrap();
    assert_eq!(tokens, vec![Token::Number(-5)]);
}

#[test]
fn minus_after_verb_is_a_negative_literal() {
    let tokens = tokenize_line(b",-5").unwrap();
    assert_eq!(tokens, vec![Token::Symbol(b','), Token::Number(-5)]);
    let mut rt = Runtime::new();
    assert_eq!(shown(&mut rt, ",-5"), "-5 ");
}

#[test]
fn minus_after_marker_is_a_negative_literal() {
    let tokens = tokenize_line(b"x: -5").unwrap();
    assert_eq!(
        tokens,
        vec![Token::Global(b'x'), Token::Colon, Token::Number(-5)]
    );
}

#[test]
fn literal_overflow_fails_tokenizing() {
    assert!(tokenize_line(b"9223372036854775808").is_err());
    assert!(tokenize_line(b"-9223372036854775808").is_err());
    let mut rt = Runtime::new();
    assert_eq!(shown(&mut rt, "9223372036854775807"), "9223372036854775807");
}

#[test]
fn blank_lines_tokenize_to_nothing() {
    assert!(tokenize_line(b"").unwrap().is_empty());
    assert!(tokenize_line(b" \t ").unwrap().is_empty());
}

#[test]
fn table_indices_match_the_symbol_order() {
    let verbs = [b'+', b'-', b'!', b'#', b',', b'@', b'=', b'~', b'&', b'|', b'*'];
    for (position, symbol) in verbs.iter().enumerate() {
        assert_eq!(verb_index(*symbol), position + 1);
    }
    assert_eq!(verb_index(b'?'), 0);
    assert_eq!(adverb_index(b'/'), 1);
    assert_eq!(adverb_index(b'\\'), 2);
    assert_eq!(adverb_index(b'+'), 0);
}

#[test]
fn enumerate_rejects_negatives() {
    let mut rt = Runtime::new();
    assert_eq!(shown(&mut rt, "!-3"), "Error");
    assert_eq!(rt.drain_diagnostics()[0].kind, ErrorKind::Domain);
}

#[test]
fn enumerate_of_zero_is_empty() {
    let mut rt = Runtime::new();
    assert_eq!(shown(&mut rt, "!0"), "");
}

#[test]
fn enlist_of_vector_is_a_rank_fault() {
    let mut rt = Runtime::new();
    assert_eq!(shown(&mut rt, ",1 2"), "Error");
    assert_eq!(rt.drain_diagnostics()[0].kind, ErrorKind::Rank);
}

#[test]
fn count_measures_vectors_only() {
    let mut rt = Runtime::new();
    assert_eq!(shown(&mut rt, "#1 2 3"), "3");
    assert_eq!(shown(&mut rt, "#5"), "Error");
    assert_eq!(rt.drain_diagnostics()[0].kind, ErrorKind::Rank);
}

#[test]
fn reverse_of_atom_is_a_rank_fault() {
    let mut rt = Runtime::new();
    assert_eq!(shown(&mut rt, "|5"), "Error");
    assert_eq!(rt.drain_diagnostics()[0].kind, ErrorKind::Rank);
}

#[test]
fn modulo_truncates_toward_zero() {
    let mut rt = Runtime::new();
    assert_eq!(shown(&mut rt, "3!10"), "1");
    assert_eq!(shown(&mut rt, "3!-10"), "-1");
    assert_eq!(shown(&mut rt, "3!10 11 12"), "1 2 0 ");
}

#[test]
fn modulo_by_zero_is_a_domain_fault() {
    let mut rt = Runtime::new();
    assert_eq!(shown(&mut rt, "0!5"), "Error");
    assert_eq!(rt.drain_diagnostics()[0].kind, ErrorKind::Domain);
}

#[test]
fn modulo_of_smallest_atom_by_minus_one_is_zero() {
    let mut rt = Runtime::new();
    let value = dyadic_modulo(&mut rt, Value::Atom(-1), Value::Atom(i64::MIN));
    assert_eq!(String::from_utf8(value.render()).unwrap(), "0");
}

#[test]
fn negative_indices_clamp_to_the_head() {
    let mut rt = Runtime::new();
    let subject = Value::Vector(Rc::new(vec![7, 8, 9]));
    let indices = Value::Vector(Rc::new(vec![-5, 1]));
    let value = dyadic_index_at(&mut rt, subject, indices);
    assert_eq!(String::from_utf8(value.render()).unwrap(), "7 8 ");
}

#[test]
fn take_rejects_negative_counts() {
    let mut rt = Runtime::new();
    assert_eq!(shown(&mut rt, "0-1"), "-1");
    eval_line(&mut rt, "a:0-1");
    assert_eq!(shown(&mut rt, "a#1 2"), "Error");
    assert_eq!(rt.drain_diagnostics()[0].kind, ErrorKind::Domain);
}

#[test]
fn take_of_atom_repeats_it() {
    let mut rt = Runtime::new();
    assert_eq!(shown(&mut rt, "3#7"), "7 7 7 ");
    assert_eq!(shown(&mut rt, "0#7"), "");
}

#[test]
fn take_from_an_empty_vector_is_a_length_fault() {
    let mut rt = Runtime::new();
    assert_eq!(shown(&mut rt, "0#!0"), "");
    assert_eq!(shown(&mut rt, "2#!0"), "Error");
    assert_eq!(rt.drain_diagnostics()[0].kind, ErrorKind::Length);
}

#[test]
fn concatenate_joins_all_shapes() {
    let mut rt = Runtime::new();
    assert_eq!(shown(&mut rt, "1,2"), "1 2 ");
    assert_eq!(shown(&mut rt, "1,2 3"), "1 2 3 ");
    assert_eq!(shown(&mut rt, "1 2,3"), "1 2 3 ");
    assert_eq!(shown(&mut rt, "1 2,3 4"), "1 2 3 4 ");
}

#[test]
fn commutative_verbs_agree_on_swapped_atoms() {
    let mut rt = Runtime::new();
    let pairs = [("3+4", "4+3"), ("3=4", "4=3"), ("3~4", "4~3"), ("6&3", "3&6"), (
        "6|3",
        "3|6",
    ), ("3*4", "4*3")];
    for (one, other) in pairs.iter() {
        assert_eq!(shown(&mut rt, one), shown(&mut rt, other));
    }
}

#[test]
fn comparison_verbs_yield_bits() {
    let mut rt = Runtime::new();
    assert_eq!(shown(&mut rt, "2=2"), "1");
    assert_eq!(shown(&mut rt, "2=3"), "0");
    assert_eq!(shown(&mut rt, "2~3"), "1");
    assert_eq!(shown(&mut rt, "2~2"), "0");
}

#[test]
fn bitwise_verbs_compute_and_and_or() {
    let mut rt = Runtime::new();
    assert_eq!(shown(&mut rt, "6&3"), "2");
    assert_eq!(shown(&mut rt, "6|3"), "7");
}

#[test]
fn arithmetic_wraps_on_overflow() {
    let mut rt = Runtime::new();
    assert_eq!(shown(&mut rt, "9223372036854775807*2"), "-2");
    assert_eq!(shown(&mut rt, "1+9223372036854775807"), "-9223372036854775808");
}

#[test]
fn broadcasting_pairs_atoms_with_vectors() {
    let mut rt = Runtime::new();
    assert_eq!(shown(&mut rt, "1+1 2 3"), "2 3 4 ");
    assert_eq!(shown(&mut rt, "1 2 3+1"), "2 3 4 ");
    assert_eq!(shown(&mut rt, "1 2 3*2 2 2"), "2 4 6 ");
}

#[test]
fn negative_literal_openers_are_marker_and_operators() {
    assert!(Token::Colon.can_start_negative());
    assert!(Token::Symbol(b'+').can_start_negative());
    assert!(Token::Symbol(b'/').can_start_negative());
    assert!(Token::Symbol(b'\\').can_start_negative());
    assert!(!Token::Symbol(b' ').can_start_negative());
    assert!(!Token::Symbol(b'?').can_start_negative());
    assert!(!Token::Number(3).can_start_negative());
    assert!(!Token::Global(b'a').can_start_negative());
}
