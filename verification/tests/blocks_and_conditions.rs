use rslogo::helper::{number_for_command, number_in_expression};
use rslogo::constant::Condition;
use rslogo::helper::{
    add_assign, add_controlflow, check_condition, combine_conditions, compare_values,
    cut_first_char, evaluate_cond, make_cmd, scan_controlflow, AddAssignPlan, CheckPlan,
    ComparisonPlan, MakePlan, NumOrder, ScanOutcome, Value, ValuePlan,
};
use rslogo::turtle::{QueryValue, Turtle};

fn lines(src: &[&str]) -> Vec<String> {
    src.iter().map(|s| s.to_string()).collect()
}

const SINGLE: (Condition, Condition) = (
    Condition { assigned_true: false, cond_start: 1 },
    Condition { assigned_true: true, cond_start: 2 },
);

#[test]
fn nested_blocks_pair_up() {
    let prog = lines(&[
        "WHILE LT XCOR \"100",
        "  IF EQ :a \"1",
        "    FORWARD \"1",
        "  ]",
        "// comment ]",
        "  SETX + XCOR \"1",
        "]",
        "IF AND GT XCOR \"0 LT YCOR \"5",
        "]",
    ]);
    let mut t: Turtle<f32> = Turtle::new(0.0, 0.0, 7, 0);
    assert_eq!(add_controlflow(0, &prog, &mut t), Some(()));
    assert_eq!(t.get_start_line(3), Some(&1));
    assert_eq!(t.get_start_line(6), Some(&0));
    assert_eq!(t.get_start_line(8), Some(&7));
    assert_eq!(t.get_start_line(4), None);
    for close in [3usize, 6, 8] {
        let open = *t.get_start_line(close).unwrap();
        assert_eq!(t.search_end(open), Some(close));
    }
    assert_eq!(t.get_conds(0), Some(&SINGLE));
    assert_eq!(t.get_conds(1), Some(&SINGLE));
    assert_eq!(
        t.get_conds(7),
        Some(&(
            Condition { assigned_true: false, cond_start: 2 },
            Condition { assigned_true: false, cond_start: 5 }
        ))
    );
}

#[test]
fn unclosed_and_stray_blocks_fail() {
    let mut t: Turtle<f32> = Turtle::new(0.0, 0.0, 7, 0);
    assert_eq!(add_controlflow(0, &lines(&["IF EQ \"1 \"1", "FORWARD \"1"]), &mut t), None);
    let mut t: Turtle<f32> = Turtle::new(0.0, 0.0, 7, 0);
    assert_eq!(add_controlflow(0, &lines(&["]"]), &mut t), None);
    let mut t: Turtle<f32> = Turtle::new(0.0, 0.0, 7, 0);
    assert_eq!(add_controlflow(0, &lines(&["IF XOR \"1 \"1", "]"]), &mut t), None);
    let mut t: Turtle<f32> = Turtle::new(0.0, 0.0, 7, 0);
    assert_eq!(add_controlflow(0, &lines(&["WHILE AND EQ \"1 \"1", "]"]), &mut t), None);
}

#[test]
fn blocks_before_a_failure_stay_recorded() {
    let mut t: Turtle<f32> = Turtle::new(0.0, 0.0, 7, 0);
    let prog = lines(&["IF EQ \"1 \"1", "]", "]"]);
    assert_eq!(add_controlflow(0, &prog, &mut t), None);
    assert_eq!(t.get_start_line(1), Some(&0));
}

#[test]
fn bare_opener_is_a_panic() {
    let prog = lines(&["WHILE", "]"]);
    let (outcome, blocks) = scan_controlflow(0, &prog);
    assert_eq!(outcome, ScanOutcome::Panics);
    assert!(blocks.is_empty());
    let (outcome, blocks) = scan_controlflow(0, &lines(&["IF EQ \"1 \"1", "]"]));
    assert_eq!(outcome, ScanOutcome::Balanced);
    assert_eq!(blocks, vec![(1, 0, SINGLE)]);
}

#[test]
fn comparisons() {
    let n = |x: f32| Value::Number(x);
    let w = |s: &str| Value::<f32>::Word(s.to_string());
    assert_eq!(compare_values("EQ", &n(1.0), &n(1.0), NumOrder::Equal), Some(true));
    assert_eq!(compare_values("NE", &n(1.0), &n(1.0), NumOrder::Equal), Some(false));
    assert_eq!(compare_values("GT", &n(2.0), &n(1.0), NumOrder::Greater), Some(true));
    assert_eq!(compare_values("LT", &n(2.0), &n(1.0), NumOrder::Greater), Some(false));
    assert_eq!(compare_values("NE", &n(f32::NAN), &n(f32::NAN), NumOrder::Unordered), Some(true));
    assert_eq!(compare_values("EQ", &w("a"), &w("a"), NumOrder::Unordered), Some(true));
    assert_eq!(compare_values("NE", &w("a"), &w("b"), NumOrder::Unordered), Some(true));
    assert_eq!(compare_values("GT", &w("b"), &w("a"), NumOrder::Unordered), Some(false));
    assert_eq!(compare_values("XX", &w("b"), &w("a"), NumOrder::Unordered), None);
}

#[test]
fn not_equal_negates_equal() {
    let n = |x: f32| Value::Number(x);
    let w = |s: &str| Value::<f32>::Word(s.to_string());
    let cases = [
        (n(1.0), n(1.0), NumOrder::Equal),
        (n(1.0), n(2.0), NumOrder::Less),
        (w("a"), w("a"), NumOrder::Unordered),
        (w("a"), w("b"), NumOrder::Unordered),
        (n(1.0), w("1"), NumOrder::Unordered),
    ];
    for (a, b, o) in cases.iter() {
        let eq = compare_values("EQ", a, b, *o).unwrap();
        assert_eq!(compare_values("NE", a, b, *o), Some(!eq));
    }
}

#[test]
fn greater_is_less_swapped() {
    let n = |x: f32| Value::Number(x);
    let w = |s: &str| Value::<f32>::Word(s.to_string());
    assert_eq!(compare_values("GT", &n(3.0), &n(1.0), NumOrder::Greater), Some(true));
    assert_eq!(compare_values("LT", &n(1.0), &n(3.0), NumOrder::Less), Some(true));
    assert_eq!(compare_values("GT", &n(1.0), &n(3.0), NumOrder::Less), Some(false));
    assert_eq!(compare_values("LT", &n(3.0), &n(1.0), NumOrder::Greater), Some(false));
    assert_eq!(compare_values("GT", &w("b"), &n(1.0), NumOrder::Unordered), Some(false));
    assert_eq!(compare_values("LT", &n(1.0), &w("b"), NumOrder::Unordered), Some(false));
}

#[test]
fn mixed_comparisons_are_only_not_equal() {
    let n = Value::Number(1.0f32);
    let w = Value::<f32>::Word("1".to_string());
    assert_eq!(compare_values("EQ", &n, &w, NumOrder::Unordered), Some(false));
    assert_eq!(compare_values("GT", &w, &n, NumOrder::Unordered), Some(false));
    assert_eq!(compare_values("LT", &n, &w, NumOrder::Unordered), Some(false));
    assert_eq!(compare_values("NE", &w, &n, NumOrder::Unordered), Some(true));
}

#[test]
fn connectives() {
    assert_eq!(combine_conditions("AND", true, false), Some(false));
    assert_eq!(combine_conditions("AND", true, true), Some(true));
    assert_eq!(combine_conditions("OR", false, true), Some(true));
    assert_eq!(combine_conditions("OR", false, false), Some(false));
    assert_eq!(combine_conditions("EQ", false, true), Some(false));
    assert_eq!(combine_conditions("GT", true, false), Some(true));
    assert_eq!(combine_conditions("NOT", true, true), None);
}

#[test]
fn comparison_plans() {
    let toks = ["IF", "EQ", "+", "\"1", "\"2", ":x"];
    let c = Condition { assigned_true: false, cond_start: 1 };
    match evaluate_cond(&c, &toks) {
        ComparisonPlan::Compare { op, lhs, rhs } => {
            assert_eq!(op, 1);
            assert!(matches!(lhs, ValuePlan::Expression(ref p) if p.end == 5));
            assert_eq!(rhs, Some(ValuePlan::Operand(5)));
        }
        other => panic!("{:?}", other),
    }
    let always = Condition { assigned_true: true, cond_start: 2 };
    assert_eq!(evaluate_cond(&always, &toks), ComparisonPlan::AlwaysTrue);
    assert_eq!(evaluate_cond(&c, &["IF"]), ComparisonPlan::NoValue);
    assert_eq!(evaluate_cond(&c, &["IF", "EQ"]), ComparisonPlan::Panics);
    match evaluate_cond(&c, &["IF", "EQ", "\"1"]) {
        ComparisonPlan::Compare { rhs, .. } => assert_eq!(rhs, None),
        other => panic!("{:?}", other),
    }
}

#[test]
fn condition_check_plans() {
    let prog = lines(&["IF EQ \"1 \"1", "]"]);
    let mut t: Turtle<f32> = Turtle::new(0.0, 0.0, 7, 0);
    let toks = ["IF", "EQ", "\"1", "\"1"];
    assert_eq!(check_condition(0, &toks, &t), CheckPlan::Unknown);
    add_controlflow(0, &prog, &mut t).unwrap();
    assert_eq!(
        check_condition(0, &toks, &t),
        CheckPlan::Both(
            ComparisonPlan::Compare {
                op: 1,
                lhs: ValuePlan::Operand(2),
                rhs: Some(ValuePlan::Operand(3))
            },
            ComparisonPlan::AlwaysTrue
        )
    );
    assert_eq!(check_condition(0, &["IF"], &t), CheckPlan::Panics);
}

#[test]
fn make_plans() {
    let t: Turtle<f32> = Turtle::new(1.0, 2.0, 7, 90);
    assert_eq!(make_cmd(&t, &["MAKE", "\"x"]), MakePlan::Invalid);
    assert_eq!(make_cmd(&t, &["MAKE", "\"x", "\"1", "\"2"]), MakePlan::Invalid);
    assert_eq!(make_cmd(&t, &["MAKE", "", "\"1"]), MakePlan::Panics);
    assert_eq!(make_cmd(&t, &["MAKE", "éx", "\"1"]), MakePlan::Panics);
    assert_eq!(
        make_cmd(&t, &["MAKE", "\"h", "HEADING"]),
        MakePlan::Query { name: "h", value: QueryValue::Integer(90) }
    );
    assert_eq!(
        make_cmd(&t, &["MAKE", "\"v", "\"hello"]),
        MakePlan::Value { name: "v", value: ValuePlan::Operand(2) }
    );
}

#[test]
fn add_assign_plans() {
    let mut t: Turtle<f32> = Turtle::new(1.0, 2.0, 7, 90);
    assert_eq!(add_assign(&t, &["ADDASSIGN", "\"x", "\"1"]), AddAssignPlan::Invalid);
    t.insert_varmap("x", true, 4.0, String::new());
    t.insert_varmap("w", false, 0.0, String::from("word"));
    assert_eq!(
        add_assign(&t, &["ADDASSIGN", "\"x", "\"1"]),
        AddAssignPlan::Add { name: "x", current: 4.0, value: ValuePlan::Operand(2) }
    );
    assert_eq!(add_assign(&t, &["ADDASSIGN", "\"w", "\"1"]), AddAssignPlan::Invalid);
    assert_eq!(add_assign(&t, &["ADDASSIGN", "\"x"]), AddAssignPlan::Invalid);
    assert_eq!(add_assign(&t, &["ADDASSIGN", "", "\"1"]), AddAssignPlan::Panics);
}

#[test]
fn names_lose_their_first_character() {
    assert_eq!(cut_first_char("\"name"), Some("name"));
    assert_eq!(cut_first_char(":a"), Some("a"));
    assert_eq!(cut_first_char("\""), Some(""));
    assert_eq!(cut_first_char(""), None);
    assert_eq!(cut_first_char("ünicode"), None);
}

#[test]
fn numbers_from_values() {
    assert_eq!(number_in_expression(&Value::Number(2.5f32), 0.0), 2.5);
    assert_eq!(number_in_expression(&Value::<f32>::Word(String::from("a")), 0.0), 0.0);
    assert_eq!(number_for_command(&Some(Value::Number(2.5f32))), Some(2.5));
    assert_eq!(number_for_command(&Some(Value::<f32>::Word(String::from("a")))), None);
    assert_eq!(number_for_command::<f32>(&None), None);
}

#[test]
fn eq_and_ne_lines_read_the_same_values() {
    let cond = Condition { assigned_true: false, cond_start: 1 };
    let eq = evaluate_cond(&cond, &["IF", "EQ", "+", "\"1", "\"2", ":x"]);
    let ne = evaluate_cond(&cond, &["IF", "NE", "+", "\"1", "\"2", ":x"]);
    assert_eq!(eq, ne);
    let n = |x: f32| Value::Number(x);
    assert_eq!(compare_values("EQ", &n(3.0), &n(3.0), NumOrder::Equal), Some(true));
    assert_eq!(compare_values("NE", &n(3.0), &n(3.0), NumOrder::Equal), Some(false));
}

#[test]
fn gt_and_swapped_lt_lines() {
    let cond = Condition { assigned_true: false, cond_start: 1 };
    let expected = ComparisonPlan::Compare {
        op: 1,
        lhs: ValuePlan::Operand(2),
        rhs: Some(ValuePlan::Operand(3)),
    };
    assert_eq!(evaluate_cond(&cond, &["IF", "GT", ":a", "\"2"]), expected);
    assert_eq!(evaluate_cond(&cond, &["IF", "LT", "\"2", ":a"]), expected);
}
