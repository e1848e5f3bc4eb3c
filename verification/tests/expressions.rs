use rslogo::compute::{calculate_bystack, parse_end_arg, ExprPlan};
use rslogo::helper::{parse_value, ValuePlan};

fn plan(first: Option<usize>, steps: Vec<(usize, usize)>, end: usize, complete: bool) -> ExprPlan {
    ExprPlan { first, steps, end, complete }
}

#[test]
fn single_operator_expression() {
    let toks = ["SETX", "+", "1", "2"];
    assert_eq!(calculate_bystack(&toks, 1), plan(Some(2), vec![(1, 3)], 4, true));
}

#[test]
fn nested_operators_apply_latest_first() {
    // + * 2 3 4 : (2 * 3) + 4
    let toks = ["+", "*", "\"2", "\"3", "\"4"];
    assert_eq!(calculate_bystack(&toks, 0), plan(Some(2), vec![(1, 3), (0, 4)], 5, true));
}

#[test]
fn operands_pair_with_the_most_recent_operator() {
    // + 1 * 2 3 : `*` combines the running value 1 with 2, then `+` adds 3
    let toks = ["+", "\"1", "*", "\"2", "\"3"];
    assert_eq!(calculate_bystack(&toks, 0), plan(Some(1), vec![(2, 3), (0, 4)], 5, true));
}

#[test]
fn expression_stops_when_stack_empties() {
    let toks = ["EQ", "+", "\"1", "\"2", "\"3"];
    let p = calculate_bystack(&toks, 1);
    assert_eq!(p.end, 4);
    assert!(p.complete);
}

#[test]
fn operator_without_operand_is_incomplete() {
    let toks = ["SETX", "+", "\"1", "+"];
    let p = calculate_bystack(&toks, 1);
    assert!(!p.complete);
    assert_eq!(p.first, Some(2));
    assert_eq!(p.steps, vec![]);
}

#[test]
fn missing_last_operand_keeps_the_running_value() {
    // SETX + "1 : the value is 1, and the expression ends at index 3
    let toks = ["SETX", "+", "\"1"];
    assert_eq!(calculate_bystack(&toks, 1), plan(Some(2), vec![], 3, true));
}

#[test]
fn lone_operand_before_any_operator() {
    let toks = ["\"5", "\"6"];
    assert_eq!(calculate_bystack(&toks, 0), plan(Some(0), vec![], 1, true));
}

#[test]
fn start_past_the_tokens() {
    let toks = ["A"];
    assert_eq!(calculate_bystack(&toks, 3), plan(None, vec![], 3, true));
}

#[test]
fn operator_then_single_operand_ends_at_the_end() {
    let toks = ["+", "\"1"];
    assert_eq!(calculate_bystack(&toks, 0), plan(Some(1), vec![], 2, true));
}

#[test]
fn end_arg_of_two_part_condition() {
    let line = vec!["WHILE", "AND", "GT", "XCOR", "\"0", "GT", "YCOR", "\"0"];
    assert_eq!(parse_end_arg(line), Some(5));
}

#[test]
fn end_arg_skips_the_first_three_tokens() {
    assert_eq!(parse_end_arg(vec!["IF", "EQ", "EQ", "\"1", "NE"]), Some(4));
    assert_eq!(parse_end_arg(vec!["IF", "OR", "EQ", "\"1", "\"2"]), None);
    assert_eq!(parse_end_arg(vec!["IF"]), None);
}

#[test]
fn parse_value_of_a_single_token() {
    let toks = ["FORWARD", ":len"];
    assert_eq!(parse_value(&toks, 1), Some(ValuePlan::Operand(1)));
}

#[test]
fn parse_value_of_an_expression() {
    let toks = ["FORWARD", "*", ":len", "\"2"];
    assert_eq!(parse_value(&toks, 1), Some(ValuePlan::Expression(plan(Some(2), vec![(1, 3)], 4, true))));
}

#[test]
fn parse_value_of_a_bare_command_is_nothing() {
    let toks = ["FORWARD"];
    assert_eq!(parse_value(&toks, 1), None);
}
