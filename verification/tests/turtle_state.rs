use rslogo::helper::Value;
use rslogo::constant::{Condition, Func, VarMapValue};
use rslogo::turtle::{Lookup, QueryValue, Turtle};

fn turtle() -> Turtle<f32> {
    Turtle::new(100.0, 50.0, 7, 0)
}

#[test]
fn new_turtle_state() {
    let t = turtle();
    assert_eq!(t.get_x(), 100.0);
    assert_eq!(t.get_y(), 50.0);
    assert_eq!(t.get_color(), 7);
    assert_eq!(t.get_direction(), 0);
    assert!(!t.get_pen_status());
}

#[test]
fn setters_and_pen() {
    let mut t = turtle();
    t.set_x(3.5);
    t.set_y(-2.0);
    t.set_color(4);
    t.set_heading(90);
    t.set_pendown();
    assert_eq!((t.get_x(), t.get_y(), t.get_color(), t.get_direction()), (3.5, -2.0, 4, 90));
    assert!(t.get_pen_status());
    t.set_penup();
    assert!(!t.get_pen_status());
}

#[test]
fn turning_adds_to_the_heading() {
    let mut t = turtle();
    t.turn(45);
    t.turn(-90);
    assert_eq!(t.get_direction(), -45);
}

#[test]
fn variables_read_back() {
    let mut t = turtle();
    t.insert_varmap("len", true, 12.5, String::new());
    t.insert_varmap("name", false, 0.0, String::from("bob"));
    assert_eq!(t.search_varmap(":len"), Some(Lookup::Number(12.5)));
    assert_eq!(t.search_varmap(":name"), Some(Lookup::Word(String::from("bob"))));
    assert_eq!(t.search_varmap(":other"), None);
    assert_eq!(t.search_assign("len"), Some(12.5));
    assert_eq!(t.search_assign("name"), None);
    assert_eq!(t.search_assign("other"), None);
    t.insert_varmap("len", false, 0.0, String::from("long"));
    assert_eq!(t.search_varmap(":len"), Some(Lookup::Word(String::from("long"))));
}

#[test]
fn literals_and_other_tokens() {
    let t = turtle();
    assert_eq!(t.search_varmap("\"10"), Some(Lookup::Literal("10")));
    assert_eq!(t.search_varmap("\"abc"), Some(Lookup::Literal("abc")));
    assert_eq!(t.search_varmap("10"), None);
    assert_eq!(t.search_varmap(""), None);
}

#[test]
fn queries() {
    let mut t = turtle();
    t.set_heading(30);
    assert_eq!(t.make_query("XCOR"), Some(QueryValue::Coordinate(100.0)));
    assert_eq!(t.make_query("YCOR"), Some(QueryValue::Coordinate(50.0)));
    assert_eq!(t.make_query("COLOR"), Some(QueryValue::Integer(7)));
    assert_eq!(t.make_query("HEADING"), Some(QueryValue::Integer(30)));
    assert_eq!(t.make_query("xcor"), None);
    assert_eq!(t.parse_or_search_map("HEADING"), Some(Lookup::Integer(30)));
    assert_eq!(t.parse_or_search_map("XCOR"), Some(Lookup::Number(100.0)));
    assert_eq!(t.parse_or_search_map("\"7"), Some(Lookup::Literal("7")));
}

#[test]
fn procedures() {
    let mut t = turtle();
    assert_eq!(t.check_function("BOX"), None);
    t.insert_funcmap("BOX", 2, 9, 1, String::from(":side"));
    let f = t.check_function("BOX").unwrap();
    assert_eq!(f, &Func { num_args: 1, start: 2, end: 9, argv: String::from(":side") });
    assert!(t.has_end(9));
    assert!(!t.has_end(2));
    assert!(!t.has_end(8));
}

#[test]
fn has_end_finds_the_end_of_a_stored_procedure() {
    let mut t: Turtle<f32> = Turtle::new(0.0, 0.0, 7, 0);
    assert!(!t.has_end(3));
    t.insert_funcmap("BOX", 0, 3, 0, String::new());
    assert!(t.has_end(3));
    assert!(!t.has_end(2));
}

#[test]
fn blocks_and_conditions() {
    let mut t = turtle();
    let c1 = Condition { assigned_true: false, cond_start: 1 };
    let c2 = Condition { assigned_true: true, cond_start: 2 };
    t.insert_condmap(7, 3);
    t.add_2conditions(3, c1, c2);
    assert_eq!(t.get_start_line(7), Some(&3));
    assert_eq!(t.get_start_line(3), None);
    assert_eq!(t.search_end(3), Some(7));
    assert_eq!(t.search_end(7), None);
    assert_eq!(t.get_conds(3), Some(&(c1, c2)));
    assert_eq!(t.get_conds(7), None);
}

#[test]
fn moving_directions() {
    let mut t = turtle();
    t.set_heading(10);
    assert_eq!(t.moving_direction("FORWARD"), 10);
    assert_eq!(t.moving_direction("BACK"), 190);
    assert_eq!(t.moving_direction("RIGHT"), 100);
    assert_eq!(t.moving_direction("LEFT"), 280);
}

#[test]
fn call_frames_copy_position_and_pen_only() {
    let mut t = turtle();
    t.set_pendown();
    t.set_heading(45);
    t.insert_varmap("x", true, 1.0, String::new());
    t.insert_funcmap("F", 0, 1, 0, String::new());
    let f = t.call_frame();
    assert_eq!((f.get_x(), f.get_y(), f.get_color(), f.get_direction()), (100.0, 50.0, 7, 45));
    assert!(f.get_pen_status());
    assert_eq!(f.search_varmap(":x"), None);
    assert_eq!(f.check_function("F"), None);
}

#[test]
fn values_are_cloneable() {
    let v = VarMapValue { is_f32: true, f32_value: 2.0f32, str_value: String::new() };
    assert_eq!(v.clone(), v);
}

#[test]
fn store_value_keeps_numbers_and_words() {
    let mut t = turtle();
    t.store_value("n", Value::Number(4.5), 0.0);
    t.store_value("w", Value::Word(String::from("hi")), 0.0);
    assert_eq!(t.parse_or_search_map(":n"), Some(Lookup::Number(4.5)));
    assert_eq!(t.parse_or_search_map(":w"), Some(Lookup::Word(String::from("hi"))));
}

#[test]
fn return_from_call_takes_position_colour_and_heading() {
    let mut caller = turtle();
    caller.set_pendown();
    let mut frame = caller.call_frame();
    frame.set_x(3.0);
    frame.set_y(4.0);
    frame.set_color(2);
    frame.set_heading(90);
    frame.set_penup();
    caller.return_from_call(&frame);
    assert_eq!((caller.get_x(), caller.get_y(), caller.get_color(), caller.get_direction()), (3.0, 4.0, 2, 90));
    assert!(caller.get_pen_status());
}
