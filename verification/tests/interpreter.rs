use ksimple::eval::evaluate_expression;
use ksimple::runtime::{Diagnostic, ErrorKind, OpName, Runtime};
use ksimple::token::tokenize_line;
use ksimple::value::Value;

fn eval_line(rt: &mut Runtime, line: &str) -> Value {
    let tokens = tokenize_line(line.as_bytes()).unwrap();
    evaluate_expression(rt, &tokens)
}

fn shown(rt: &mut Runtime, line: &str) -> String {
    let value = eval_line(rt, line);
    String::from_utf8(value.render()).unwrap()
}

#[test]
fn scenario_add() {
    let mut rt = Runtime::new();
    assert_eq!(shown(&mut rt, "1+2"), "3");
}

#[test]
fn scenario_enumerate() {
    let mut rt = Runtime::new();
    assert_eq!(shown(&mut rt, "!5"), "0 1 2 3 4 ");
}

#[test]
fn scenario_assign_then_read() {
    let mut rt = Runtime::new();
    eval_line(&mut rt, "a:1 2 3");
    assert!(rt.drain_diagnostics().is_empty());
    assert_eq!(shown(&mut rt, "a"), "1 2 3 ");
}

#[test]
fn scenario_take_short() {
    let mut rt = Runtime::new();
    assert_eq!(shown(&mut rt, "2#1 2 3"), "1 2 ");
}

#[test]
fn scenario_take_cyclic() {
    let mut rt = Runtime::new();
    assert_eq!(shown(&mut rt, "5#1 2 3"), "1 2 3 1 2 ");
}

#[test]
fn scenario_fold() {
    let mut rt = Runtime::new();
    assert_eq!(shown(&mut rt, "+/1 2 3 4"), "10");
}

#[test]
fn scenario_length_mismatch_is_domain_fault_in_add() {
    let mut rt = Runtime::new();
    assert_eq!(shown(&mut rt, "1 2+1 2 3"), "Error");
    let diags = rt.drain_diagnostics();
    assert_eq!(
        diags,
        vec![Diagnostic { op: OpName::DyadicAdd, kind: ErrorKind::Domain }]
    );
}

#[test]
fn assignment_returns_bound_value() {
    let mut rt = Runtime::new();
    assert_eq!(shown(&mut rt, "b:5"), "5");
    assert_eq!(shown(&mut rt, "b+1"), "6");
}

#[test]
fn failed_assignment_leaves_global_untouched() {
    let mut rt = Runtime::new();
    assert_eq!(shown(&mut rt, "c:!-1"), "Error");
    rt.drain_diagnostics();
    assert_eq!(shown(&mut rt, "c"), "0");
}

#[test]
fn globals_start_as_zero_atoms() {
    let mut rt = Runtime::new();
    assert_eq!(shown(&mut rt, "z"), "0");
}

#[test]
fn scan_accumulates() {
    let mut rt = Runtime::new();
    assert_eq!(shown(&mut rt, "+\\1 2 3"), "1 3 6 ");
}

#[test]
fn scan_of_empty_vector_is_empty() {
    let mut rt = Runtime::new();
    assert_eq!(shown(&mut rt, "+\\!0"), "");
}

#[test]
fn fold_of_empty_vector_is_zero() {
    let mut rt = Runtime::new();
    assert_eq!(shown(&mut rt, "+/!0"), "0");
}

#[test]
fn fold_of_atom_is_the_atom() {
    let mut rt = Runtime::new();
    assert_eq!(shown(&mut rt, "+/7"), "7");
}

#[test]
fn scan_masks_mid_sequence_failure_with_zero() {
    // Take applied dyadically inside a scan yields a vector, not an
    // atom: the scan records 0 and continues instead of aborting.
    let mut rt = Runtime::new();
    assert_eq!(shown(&mut rt, "#\\1 2"), "1 0 ");
}

#[test]
fn reverse_round_trip() {
    let mut rt = Runtime::new();
    assert_eq!(shown(&mut rt, "|1 2 3"), "3 2 1 ");
    assert_eq!(shown(&mut rt, "||1 2 3"), "1 2 3 ");
}

#[test]
fn first_takes_the_head() {
    let mut rt = Runtime::new();
    assert_eq!(shown(&mut rt, "@4 5 6"), "4");
}

#[test]
fn first_of_empty_vector_defaults_to_zero() {
    let mut rt = Runtime::new();
    assert_eq!(shown(&mut rt, "@!0"), "0");
}

#[test]
fn index_at_permits_the_length_and_yields_zero() {
    let mut rt = Runtime::new();
    assert_eq!(shown(&mut rt, "1 2 3@3"), "0");
    assert!(rt.drain_diagnostics().is_empty());
}

#[test]
fn index_at_rejects_past_the_length() {
    let mut rt = Runtime::new();
    assert_eq!(shown(&mut rt, "1 2 3@5"), "Error");
    let diags = rt.drain_diagnostics();
    assert_eq!(
        diags,
        vec![Diagnostic { op: OpName::DyadicIndexAt, kind: ErrorKind::Length }]
    );
}

#[test]
fn index_at_vector_clamps_and_defaults() {
    let mut rt = Runtime::new();
    eval_line(&mut rt, "a:4 5 6");
    assert_eq!(shown(&mut rt, "a@0 2 9"), "4 6 0 ");
    assert!(rt.drain_diagnostics().is_empty());
}

#[test]
fn empty_line_is_a_parse_fault() {
    let mut rt = Runtime::new();
    let tokens = tokenize_line(b"").unwrap();
    assert!(tokens.is_empty());
    let value = evaluate_expression(&mut rt, &tokens);
    assert!(value.is_error());
    let diags = rt.drain_diagnostics();
    assert_eq!(diags.len(), 1);
    assert_eq!(diags[0].kind, ErrorKind::Parse);
}

#[test]
fn lone_marker_is_a_parse_fault() {
    let mut rt = Runtime::new();
    assert_eq!(shown(&mut rt, ":"), "Error");
    let diags = rt.drain_diagnostics();
    assert_eq!(diags.len(), 1);
    assert_eq!(diags[0].kind, ErrorKind::Parse);
}

#[test]
fn monadic_equal_is_not_implemented() {
    let mut rt = Runtime::new();
    assert_eq!(shown(&mut rt, "=1 2"), "Error");
    let diags = rt.drain_diagnostics();
    assert_eq!(
        diags,
        vec![Diagnostic { op: OpName::MonadicNotImplemented, kind: ErrorKind::Nyi }]
    );
}

#[test]
fn unknown_dyadic_symbol_is_a_domain_fault() {
    let mut rt = Runtime::new();
    assert_eq!(shown(&mut rt, "1?2"), "Error");
    let diags = rt.drain_diagnostics();
    assert_eq!(
        diags,
        vec![Diagnostic { op: OpName::Evaluate, kind: ErrorKind::Domain }]
    );
}

#[test]
fn chain_associates_to_the_right() {
    // 2*3+4 evaluates the tail first: 2*(3+4).
    let mut rt = Runtime::new();
    assert_eq!(shown(&mut rt, "2*3+4"), "14");
}

#[test]
fn aliasing_keeps_workspace_deduplicated() {
    let mut rt = Runtime::new();
    assert_eq!(rt.workspace_bytes(), 0);
    eval_line(&mut rt, "a:1 2 3");
    assert_eq!(rt.workspace_bytes(), 24);
    eval_line(&mut rt, "b:a");
    assert_eq!(rt.workspace_bytes(), 24);
    eval_line(&mut rt, "c:4 5 6");
    assert_eq!(rt.workspace_bytes(), 48);
}

#[test]
fn listing_reports_lengths_and_shares() {
    let mut rt = Runtime::new();
    eval_line(&mut rt, "a:1 2 3");
    eval_line(&mut rt, "b:a");
    eval_line(&mut rt, "c:7 8");
    let listing = rt.globals_listing();
    assert_eq!(listing.len(), 3);
    assert_eq!((listing[0].0, listing[0].1), (b'a', 3));
    assert_eq!((listing[1].0, listing[1].1), (b'b', 3));
    assert_eq!((listing[2].0, listing[2].1), (b'c', 2));
    assert_eq!(listing[0].2, 2);
    assert_eq!(listing[1].2, 2);
    assert_eq!(listing[2].2, 1);
}

#[test]
fn monadic_verb_consumes_everything_rightward() {
    let mut rt = Runtime::new();
    assert_eq!(shown(&mut rt, "!3+1"), "0 1 2 3 ");
}

#[test]
fn globals_participate_in_expressions() {
    let mut rt = Runtime::new();
    eval_line(&mut rt, "a:2");
    assert_eq!(shown(&mut rt, "a*a+1"), "6");
}

#[test]
fn scan_with_subtraction_runs_left_to_right() {
    let mut rt = Runtime::new();
    assert_eq!(shown(&mut rt, "-\\5 1 1"), "5 4 3 ");
}

#[test]
fn adverb_under_unknown_verb_is_ungrammatical() {
    let mut rt = Runtime::new();
    assert_eq!(shown(&mut rt, "?/1 2"), "Error");
    let diags = rt.drain_diagnostics();
    assert_eq!(diags.len(), 1);
    assert_eq!(diags[0].kind, ErrorKind::Parse);
}
