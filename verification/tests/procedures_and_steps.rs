use rslogo::function::{bind_argument, define_procedure, parse_func_arguments, ArgStep, BindOutcome, ProcedureError};
use rslogo::turtle::Lookup;
use rslogo::helper::Value;
use rslogo::helper::{CheckPlan, ComparisonPlan, MakePlan, ValuePlan};
use rslogo::parser::{next_step, IntegerCommand, NumberCommand, Step};
use rslogo::turtle::Turtle;

fn lines(src: &[&str]) -> Vec<String> {
    src.iter().map(|s| s.to_string()).collect()
}

fn fresh() -> Turtle<f32> {
    Turtle::new(50.0, 50.0, 7, 0)
}

#[test]
fn defining_a_procedure() {
    let prog = lines(&["TO BOX :side :n", "FORWARD :side", "END", "BOX \"10 \"2"]);
    let mut t = fresh();
    assert!(matches!(define_procedure(&mut t, &prog, 0), Ok(2)));
    let f = t.check_function("BOX").unwrap();
    assert_eq!((f.num_args, f.start, f.end, f.argv.as_str()), (2, 0, 2, ":side :n"));
}

#[test]
fn procedure_errors() {
    let mut t = fresh();
    let prog = lines(&["TO BOX", "FORWARD \"1"]);
    assert!(matches!(define_procedure(&mut t, &prog, 0), Err(ProcedureError::MissingEnd)));
    let prog = lines(&["TO", "END"]);
    assert!(matches!(define_procedure(&mut t, &prog, 0), Err(ProcedureError::MissingName)));
    // an END at line 0 counts as no END at all
    let prog = lines(&["END"]);
    assert!(matches!(define_procedure(&mut t, &prog, 0), Err(ProcedureError::MissingEnd)));
    // the END must stand alone on its line
    let prog = lines(&["TO A", " END"]);
    assert!(matches!(define_procedure(&mut t, &prog, 0), Err(ProcedureError::MissingEnd)));
    assert_eq!(ProcedureError::MissingEnd.message(), "procedure doesnt have END");
    assert_eq!(t.check_function("A"), None);
}

#[test]
fn arguments_bind_in_order() {
    let mut t = fresh();
    let prog = lines(&["TO BOX :side :n", "END"]);
    define_procedure(&mut t, &prog, 0).unwrap();
    let f = t.check_function("BOX").unwrap().clone();
    let steps = parse_func_arguments(&f, &["BOX", "+", "\"1", "\"2", ":y"]);
    assert_eq!(steps.len(), 2);
    match &steps[0] {
        ArgStep::Bind { value: ValuePlan::Expression(p), name } => {
            assert_eq!(p.end, 4);
            assert_eq!(name.as_deref(), Some("side"));
        }
        other => panic!("{:?}", other),
    }
    assert_eq!(steps[1], ArgStep::Bind { value: ValuePlan::Operand(4), name: Some(String::from("n")) });
    assert_eq!(parse_func_arguments(&f, &["BOX"]), vec![ArgStep::NoValue]);
    let short = parse_func_arguments(&f, &["BOX", "\"1"]);
    assert_eq!(short.len(), 2);
    assert_eq!(short[1], ArgStep::Panics);
}

#[test]
fn skipped_lines_go_on() {
    let prog = lines(&["", "   ", "// hi", "FORWARD \"1"]);
    let mut t = fresh();
    assert_eq!(next_step(&mut t, &prog, 0), Step::Goto(1));
    assert_eq!(next_step(&mut t, &prog, 1), Step::Goto(2));
    assert_eq!(next_step(&mut t, &prog, 2), Step::Goto(3));
}

#[test]
fn value_commands() {
    let prog = lines(&["SETPENCOLOR \"3", "TURN + \"1 \"2", "FORWARD :d", "SETX", "SETY \"1 \"2", "PENDOWN", "PENUP \"1"]);
    let mut t = fresh();
    match next_step(&mut t, &prog, 0) {
        Step::Integer { command, tokens, value } => {
            assert_eq!(command, IntegerCommand::SetPenColor);
            assert_eq!(tokens, vec!["SETPENCOLOR", "\"3"]);
            assert_eq!(value, ValuePlan::Operand(1));
        }
        other => panic!("{:?}", other),
    }
    match next_step(&mut t, &prog, 1) {
        Step::Integer { command, .. } => assert_eq!(command, IntegerCommand::Turn),
        other => panic!("{:?}", other),
    }
    match next_step(&mut t, &prog, 2) {
        Step::Number { command, .. } => assert_eq!(command, NumberCommand::Move),
        other => panic!("{:?}", other),
    }
    assert_eq!(next_step(&mut t, &prog, 3), Step::Exit);
    assert_eq!(next_step(&mut t, &prog, 4), Step::Exit);
    assert_eq!(next_step(&mut t, &prog, 5), Step::Goto(6));
    assert!(t.get_pen_status());
    assert_eq!(next_step(&mut t, &prog, 6), Step::Exit);
}

#[test]
fn make_step() {
    let prog = lines(&["MAKE \"x \"5"]);
    let mut t = fresh();
    match next_step(&mut t, &prog, 0) {
        Step::Make { plan, .. } => assert_eq!(plan, MakePlan::Value { name: "x", value: ValuePlan::Operand(2) }),
        other => panic!("{:?}", other),
    }
}

#[test]
fn while_loop_steps() {
    let prog = lines(&["WHILE LT XCOR \"10", "SETX + XCOR \"1", "]"]);
    let mut t = fresh();
    match next_step(&mut t, &prog, 0) {
        Step::Branch { check, on_true, on_false, .. } => {
            assert_eq!(on_true, 1);
            assert_eq!(on_false, Some(3));
            assert!(matches!(check, CheckPlan::Both(ComparisonPlan::Compare { op: 1, .. }, ComparisonPlan::AlwaysTrue)));
        }
        other => panic!("{:?}", other),
    }
    assert_eq!(t.get_start_line(2), Some(&0));
    match next_step(&mut t, &prog, 2) {
        Step::Loop { tokens, on_true, on_false, .. } => {
            assert_eq!(tokens, vec!["WHILE", "LT", "XCOR", "\"10"]);
            assert_eq!((on_true, on_false), (1, 3));
        }
        other => panic!("{:?}", other),
    }
}

#[test]
fn if_block_close_goes_on() {
    let prog = lines(&["IF EQ \"1 \"1", "]"]);
    let mut t = fresh();
    assert!(matches!(next_step(&mut t, &prog, 0), Step::Branch { .. }));
    assert_eq!(next_step(&mut t, &prog, 1), Step::Goto(2));
}

#[test]
fn stray_close_and_end() {
    let prog = lines(&["]", "END", "WHILE", "]"]);
    let mut t = fresh();
    assert_eq!(next_step(&mut t, &prog, 0), Step::Panics);
    assert_eq!(next_step(&mut t, &prog, 1), Step::Exit);
    assert_eq!(next_step(&mut t, &prog, 2), Step::Panics);
}

#[test]
fn unbalanced_block_exits() {
    let prog = lines(&["IF EQ \"1 \"1", "FORWARD \"1"]);
    let mut t = fresh();
    assert_eq!(next_step(&mut t, &prog, 0), Step::Exit);
}

#[test]
fn procedures_are_defined_and_called() {
    let prog = lines(&["TO STEP :n", "FORWARD :n", "END", "STEP \"5", "JUMP"]);
    let mut t = fresh();
    assert_eq!(next_step(&mut t, &prog, 0), Step::Goto(3));
    match next_step(&mut t, &prog, 3) {
        Step::Call { body_start, body_end, args, .. } => {
            assert_eq!((body_start, body_end), (Some(1), 2));
            assert_eq!(args, vec![ArgStep::Bind { value: ValuePlan::Operand(1), name: Some(String::from("n")) }]);
        }
        other => panic!("{:?}", other),
    }
    assert_eq!(next_step(&mut t, &prog, 4), Step::Exit);
    // the END of a stored procedure goes on with the next line
    assert_eq!(next_step(&mut t, &prog, 2), Step::Goto(3));
}

#[test]
fn missing_parameter_has_no_name() {
    let f = rslogo::constant::Func { num_args: 2, start: 0, end: 1, argv: String::from(":a") };
    let steps = parse_func_arguments(&f, &["F", "\"1", "\"2"]);
    assert_eq!(
        steps,
        vec![
            ArgStep::Bind { value: ValuePlan::Operand(1), name: Some(String::from("a")) },
            ArgStep::Bind { value: ValuePlan::Operand(2), name: None }
        ]
    );
    let g = rslogo::constant::Func { num_args: -1, start: 0, end: 1, argv: String::new() };
    assert_eq!(parse_func_arguments(&g, &["G", "\"1"]), vec![]);
}

#[test]
fn add_assign_step() {
    let prog = lines(&["ADDASSIGN \"x \"1", "TO"]);
    let mut t = fresh();
    t.insert_varmap("x", true, 2.0, String::new());
    match next_step(&mut t, &prog, 0) {
        Step::AddAssign { plan, .. } => assert_eq!(
            plan,
            rslogo::helper::AddAssignPlan::Add { name: "x", current: 2.0, value: ValuePlan::Operand(2) }
        ),
        other => panic!("{:?}", other),
    }
    assert_eq!(next_step(&mut t, &prog, 1), Step::Exit);
}

#[test]
fn arguments_are_read_in_the_caller_and_bound_in_the_frame() {
    let mut caller = fresh();
    caller.insert_varmap("X", true, 4.0, String::new());
    let mut frame = caller.call_frame();
    let f = rslogo::constant::Func { num_args: 1, start: 0, end: 2, argv: String::from(":Y") };
    let steps = parse_func_arguments(&f, &["F", ":X"]);
    assert_eq!(steps, vec![ArgStep::Bind { value: ValuePlan::Operand(1), name: Some(String::from("Y")) }]);
    let read = match caller.parse_or_search_map(":X") {
        Some(Lookup::Number(v)) => Some(Value::Number(v)),
        _ => None,
    };
    assert_eq!(bind_argument(&mut frame, &steps[0], read, 0.0), BindOutcome::Bound);
    assert_eq!(frame.parse_or_search_map(":Y"), Some(Lookup::Number(4.0)));
    assert_eq!(frame.parse_or_search_map(":X"), None);
    assert_eq!(caller.parse_or_search_map(":X"), Some(Lookup::Number(4.0)));
    assert_eq!(caller.parse_or_search_map(":Y"), None);
}

#[test]
fn binding_fails_as_the_call_does() {
    let mut frame = fresh();
    assert_eq!(bind_argument(&mut frame, &ArgStep::NoValue, None, 0.0), BindOutcome::Exit);
    assert_eq!(bind_argument(&mut frame, &ArgStep::Panics, None, 0.0), BindOutcome::Panics);
    let unnamed = ArgStep::Bind { value: ValuePlan::Operand(1), name: None };
    assert_eq!(bind_argument(&mut frame, &unnamed, None, 0.0), BindOutcome::Exit);
    assert_eq!(bind_argument(&mut frame, &unnamed, Some(Value::Number(1.0)), 0.0), BindOutcome::Panics);
    let word = ArgStep::Bind { value: ValuePlan::Operand(1), name: Some(String::from("w")) };
    assert_eq!(bind_argument(&mut frame, &word, Some(Value::Word(String::from("hi"))), 0.0), BindOutcome::Bound);
    assert_eq!(frame.parse_or_search_map(":w"), Some(Lookup::Word(String::from("hi"))));
}
