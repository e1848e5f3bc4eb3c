//! The decisions of the interpreter: what to do with one line of a program.
//!
//! `next_step` reads line `i`, does everything that needs no arithmetic
//! (skipping blank lines and comments, defining procedures, lifting and
//! lowering the pen, recording blocks, looking up procedures) and tells the
//! caller what is left: a value to compute and apply, a condition to decide,
//! a procedure to run, or the line to go on with.
use vstd::prelude::*;
use crate::constant::{is_operator_name, is_arithmetic_operator, IS_PENDOWN, IS_PENUP, IS_SETX,
    IS_SETY, IS_FORWARD, IS_BACK, IS_RIGHT, IS_LEFT, IS_TURN, IS_SETHEADING, IS_MAKE,
    IS_SETPENCOLOR, IS_ADDASSIGN, IS_CLOSE, IS_WHILE, IS_IF, DEFINE_PROCEDURE, PROCEDURE_END,
    is_comment};
use crate::function::{ArgStep, args_ok, define_procedure, define_result, define_effect,
    parse_func_arguments};
use crate::helper::{ValuePlan, CheckPlan, MakePlan, AddAssignPlan, ScanOutcome, parse_value,
    value_plan_ok, check_condition, make_cmd, add_assign, add_controlflow, scan_controlflow,
    scan_blocks, starts_after, conds_after, is_skipped_line, comparison_plan_ok, make_plan_ok,
    add_assign_plan_ok};
use crate::text::{str_eq, str_views, string_views, trim_start, trim_start_spec, split_spaces_of,
    line_tokens, lemma_split_nonempty};
use crate::turtle::Turtle;

verus! {

/// The commands that take an integer.
#[derive(Debug, PartialEq, Eq, Structural, Clone, Copy)]
pub enum IntegerCommand {
    SetPenColor,
    Turn,
    SetHeading,
}

/// The commands that take a number.
#[derive(Debug, PartialEq, Eq, Structural, Clone, Copy)]
pub enum NumberCommand {
    SetX,
    SetY,
    /// `FORWARD`, `BACK`, `RIGHT` or `LEFT` (token 0 says which).
    Move,
}

/// What is left to do with a line.
#[derive(Debug, PartialEq)]
pub enum Step<'a, N> {
    /// Go on with this line.
    Goto(usize),
    /// The program stops with exit status 1.
    Exit,
    /// The program panics.
    Panics,
    /// Read a value with `value`; it must be a number that is an integer;
    /// then apply `command` with it and go on with the next line.
    Integer { command: IntegerCommand, tokens: Vec<&'a str>, value: ValuePlan },
    /// Read a value with `value`; it must be a number; then apply `command`
    /// with it and go on with the next line.
    Number { command: NumberCommand, tokens: Vec<&'a str>, value: ValuePlan },
    /// Store what `plan` says; stop with status 1 when it cannot be stored.
    Make { tokens: Vec<&'a str>, plan: MakePlan<'a, N> },
    /// Add what `plan` says; stop with status 1 when it cannot be added.
    AddAssign { tokens: Vec<&'a str>, plan: AddAssignPlan<'a, N> },
    /// Decide the condition by `check`: when it holds go on with
    /// `on_true`, when it does not with `on_false` (`None`: the block has no
    /// recorded end, a panic); stop with status 1 when it cannot be decided.
    Branch { tokens: Vec<&'a str>, check: CheckPlan, on_true: usize, on_false: Option<usize> },
    /// The `]` of a `WHILE`: decide the loop's condition (the tokens of its
    /// `WHILE` line) by `check`: when it holds go on with `on_true` (the line
    /// after the `WHILE`), else with `on_false` (the line after the `]`);
    /// stop with status 1 when it cannot be decided.
    Loop { tokens: Vec<&'a str>, check: CheckPlan, on_true: usize, on_false: usize },
    /// Run the procedure whose body is lines `body_start .. body_end` in a
    /// frame of its own, with the arguments read by `args` (stop with status
    /// 1 when one cannot be read). `body_start` is `None` where computing it
    /// overflows (a panic once the arguments are read). Afterwards the
    /// caller takes the frame's position, colour and heading, and goes on
    /// with the next line.
    Call { tokens: Vec<&'a str>, body_start: Option<usize>, body_end: usize, args: Vec<ArgStep> },
}

/// Whether taking the first two bytes of `s` panics: it is shorter than
/// two bytes, or byte 2 lies inside a character (a first character of three
/// or four bytes, or a one-byte first character followed by a longer one).
pub open spec fn cut_two_panics(s: Seq<char>) -> bool {
    ||| s.len() == 0
    ||| ((s[0] as u32) < 0x80 && (s.len() < 2 || (s[1] as u32) >= 0x80))
    ||| (s[0] as u32) >= 0x800
}

/// Whether the first two bytes of `s` are `IF`.
pub open spec fn starts_with_if(s: Seq<char>) -> bool {
    s.len() >= 2 && s[0] == 'I' && s[1] == 'F'
}

/// What line `i` leaves to do, given the turtle before and after.
pub open spec fn step_ok<'a, N: Copy>(
    old: Turtle<N>,
    new: Turtle<N>,
    lines: Seq<Seq<char>>,
    i: int,
    r: Step<'a, N>,
) -> bool {
    let line = lines[i];
    if is_skipped_line(line) {
        r == Step::<'a, N>::Goto((i + 1) as usize) && new == old
    } else {
        let t = line_tokens(line);
        let w = t[0];
        let tokens_ok = |tokens: Vec<&'a str>| str_views(tokens@) == t;
        if w == DEFINE_PROCEDURE@ {
            &&& define_effect(old, new, lines, i)
            &&& match define_result(lines, i) {
                Ok(e) => r == Step::<'a, N>::Goto((e + 1) as usize),
                Err(_) => r is Exit,
            }
        } else if w == IS_SETPENCOLOR@ || w == IS_TURN@ || w == IS_SETHEADING@ {
            &&& new == old
            &&& if (t.len() > 2 && !is_operator_name(t[1])) || t.len() == 1 {
                r is Exit
            } else {
                r matches Step::Integer { command, tokens, value } && tokens_ok(tokens)
                    && value_plan_ok(t, 1, Some(value)) && command == (if w == IS_SETPENCOLOR@ {
                    IntegerCommand::SetPenColor
                } else if w == IS_TURN@ {
                    IntegerCommand::Turn
                } else {
                    IntegerCommand::SetHeading
                })
            }
        } else if w == IS_PENDOWN@ || w == IS_PENUP@ {
            if t.len() != 1 {
                r is Exit && new == old
            } else {
                &&& r == Step::<'a, N>::Goto((i + 1) as usize)
                &&& new.pen() == (w == IS_PENDOWN@)
                &&& new.spec_x() == old.spec_x() && new.spec_y() == old.spec_y()
                &&& new.color() == old.color() && new.heading() == old.heading()
                &&& new.same_tables(&old) && new.wf()
            }
        } else if w == IS_SETX@ || w == IS_SETY@ || w == IS_FORWARD@ || w == IS_BACK@ || w
            == IS_RIGHT@ || w == IS_LEFT@ {
            &&& new == old
            &&& if (t.len() > 2 && !is_operator_name(t[1])) || t.len() == 1 {
                r is Exit
            } else {
                r matches Step::Number { command, tokens, value } && tokens_ok(tokens)
                    && value_plan_ok(t, 1, Some(value)) && command == (if w == IS_SETX@ {
                    NumberCommand::SetX
                } else if w == IS_SETY@ {
                    NumberCommand::SetY
                } else {
                    NumberCommand::Move
                })
            }
        } else if w == IS_MAKE@ {
            &&& new == old
            &&& r matches Step::Make { tokens, plan } && tokens_ok(tokens) && make_plan_ok(old, t, plan)
        } else if w == IS_ADDASSIGN@ {
            &&& new == old
            &&& r matches Step::AddAssign { tokens, plan } && tokens_ok(tokens) && add_assign_plan_ok(
                old,
                t,
                plan,
            )
        } else if w == IS_WHILE@ || w == IS_IF@ {
            let recorded = exists|k: usize| #[trigger]
                old.starts().contains_key(k) && old.starts()[k] == i;
            let scan = scan_blocks(lines, i, Seq::empty());
            if !recorded && scan.0 == ScanOutcome::Panics {
                r is Panics && new == old
            } else {
                &&& new.wf()
                &&& new.same_scalars(&old)
                &&& new.vars() == old.vars()
                &&& new.funcs() == old.funcs()
                &&& if recorded {
                    new.starts() == old.starts() && new.conds() == old.conds()
                } else {
                    new.starts() == starts_after(old.starts(), scan.1) && new.conds()
                        == conds_after(old.conds(), scan.1)
                }
                &&& if !recorded && scan.0 == ScanOutcome::Invalid {
                    r is Exit
                } else {
                    r matches Step::Branch { tokens, check, on_true, on_false } && tokens_ok(
                        tokens,
                    ) && on_true == i + 1 && (on_false matches Some(j) ==> j > 0
                        && new.starts().contains_key((j - 1) as usize) && new.starts()[(j
                        - 1) as usize] == i) && (on_false is None ==> (forall|k: usize| #[trigger]
                        new.starts().contains_key(k) ==> new.starts()[k] != i) || (
                    new.starts().contains_key(usize::MAX) && new.starts()[usize::MAX] == i))
                        && check_ok(new, i, t, check)
                }
            }
        } else if w == IS_CLOSE@ {
            &&& new == old
            &&& if !old.starts().contains_key(i as usize) || old.starts()[i as usize] >= lines.len() {
                r is Panics
            } else {
                let s = old.starts()[i as usize] as int;
                let opener = trim_start_spec(lines[s]);
                if cut_two_panics(opener) {
                    r is Panics
                } else if starts_with_if(opener) {
                    r == Step::<'a, N>::Goto((i + 1) as usize)
                } else {
                    r matches Step::Loop { tokens, check, on_true, on_false } && str_views(
                        tokens@,
                    ) == line_tokens(lines[s]) && on_true == s + 1 && on_false == i + 1
                        && check_ok(old, s, line_tokens(lines[s]), check)
                }
            }
        } else if w == PROCEDURE_END@ {
            &&& new == old
            &&& if exists|n: Seq<char>| #[trigger]
                old.funcs().contains_key(n) && old.funcs()[n].end == i {
                r == Step::<'a, N>::Goto((i + 1) as usize)
            } else {
                r is Exit
            }
        } else {
            &&& new == old
            &&& if old.funcs().contains_key(w) {
                let f = old.funcs()[w];
                r matches Step::Call { tokens, body_start, body_end, args } && tokens_ok(tokens)
                    && body_end == f.end && (body_start matches Some(b) ==> b == f.start + 1) && (
                body_start is None ==> f.start == usize::MAX) && args_ok(f, t, args@)
            } else {
                r is Exit
            }
        }
    }
}

/// The command of a `Number` step.
pub open spec fn number_command<'a, N>(r: Step<'a, N>) -> Option<NumberCommand> {
    match r {
        Step::Number { command, .. } => Some(command),
        _ => None,
    }
}

/// The command of an `Integer` step.
pub open spec fn integer_command<'a, N>(r: Step<'a, N>) -> Option<IntegerCommand> {
    match r {
        Step::Integer { command, .. } => Some(command),
        _ => None,
    }
}

proof fn lemma_command_words_differ()
    ensures
        "SETX"@ != DEFINE_PROCEDURE@, "SETX"@ != IS_SETPENCOLOR@, "SETX"@ != IS_TURN@,
        "SETX"@ != IS_SETHEADING@, "SETX"@ != IS_PENDOWN@, "SETX"@ != IS_PENUP@,
        "SETY"@ != DEFINE_PROCEDURE@, "SETY"@ != IS_SETPENCOLOR@, "SETY"@ != IS_TURN@,
        "SETY"@ != IS_SETHEADING@, "SETY"@ != IS_PENDOWN@, "SETY"@ != IS_PENUP@,
        "SETY"@ != IS_SETX@,
        "FORWARD"@ != DEFINE_PROCEDURE@, "FORWARD"@ != IS_SETPENCOLOR@, "FORWARD"@ != IS_TURN@,
        "FORWARD"@ != IS_SETHEADING@, "FORWARD"@ != IS_PENDOWN@, "FORWARD"@ != IS_PENUP@,
        "FORWARD"@ != IS_SETX@, "FORWARD"@ != IS_SETY@,
        "SETPENCOLOR"@ != DEFINE_PROCEDURE@,
        "TURN"@ != DEFINE_PROCEDURE@, "TURN"@ != IS_SETPENCOLOR@,
        "SETHEADING"@ != DEFINE_PROCEDURE@, "SETHEADING"@ != IS_SETPENCOLOR@,
        "SETHEADING"@ != IS_TURN@,
        "PENUP"@ != DEFINE_PROCEDURE@, "PENUP"@ != IS_SETPENCOLOR@, "PENUP"@ != IS_TURN@,
        "PENUP"@ != IS_SETHEADING@, "PENUP"@ != IS_PENDOWN@,
        "PENDOWN"@ != DEFINE_PROCEDURE@, "PENDOWN"@ != IS_SETPENCOLOR@, "PENDOWN"@ != IS_TURN@,
        "PENDOWN"@ != IS_SETHEADING@,
        IS_SETX@ == "SETX"@, IS_SETY@ == "SETY"@, IS_SETPENCOLOR@ == "SETPENCOLOR"@,
        IS_TURN@ == "TURN"@, IS_SETHEADING@ == "SETHEADING"@, IS_PENUP@ == "PENUP"@,
        IS_PENDOWN@ == "PENDOWN"@, IS_FORWARD@ == "FORWARD"@,
{
    reveal_strlit("SETX");
    reveal_strlit("SETY");
    reveal_strlit("FORWARD");
    reveal_strlit("SETPENCOLOR");
    reveal_strlit("TURN");
    reveal_strlit("SETHEADING");
    reveal_strlit("PENUP");
    reveal_strlit("PENDOWN");
    reveal_strlit("TO");
    assert("SETX"@[3] != "SETY"@[3]);
    assert("SETX"@.len() != "SETPENCOLOR"@.len());
    assert("SETX"@[0] != "TURN"@[0]);
    assert("SETX"@.len() != "SETHEADING"@.len());
    assert("SETX"@.len() != "PENDOWN"@.len());
    assert("SETX"@.len() != "PENUP"@.len());
    assert("SETX"@.len() != "TO"@.len());
    assert("SETY"@.len() != "SETPENCOLOR"@.len());
    assert("SETY"@[0] != "TURN"@[0]);
    assert("SETY"@.len() != "SETHEADING"@.len());
    assert("SETY"@.len() != "PENDOWN"@.len());
    assert("SETY"@.len() != "PENUP"@.len());
    assert("SETY"@.len() != "TO"@.len());
    assert("FORWARD"@.len() != "TO"@.len());
    assert("FORWARD"@.len() != "SETPENCOLOR"@.len());
    assert("FORWARD"@.len() != "TURN"@.len());
    assert("FORWARD"@.len() != "SETHEADING"@.len());
    assert("FORWARD"@[0] != "PENDOWN"@[0]);
    assert("FORWARD"@.len() != "PENUP"@.len());
    assert("FORWARD"@.len() != "SETX"@.len());
    assert("FORWARD"@.len() != "SETY"@.len());
    assert("SETPENCOLOR"@.len() != "TO"@.len());
    assert("TURN"@.len() != "TO"@.len());
    assert("TURN"@.len() != "SETPENCOLOR"@.len());
    assert("SETHEADING"@.len() != "TO"@.len());
    assert("SETHEADING"@.len() != "SETPENCOLOR"@.len());
    assert("SETHEADING"@.len() != "TURN"@.len());
    assert("PENUP"@.len() != "TO"@.len());
    assert("PENUP"@.len() != "SETPENCOLOR"@.len());
    assert("PENUP"@[0] != "TURN"@[0]);
    assert("PENUP"@.len() != "SETHEADING"@.len());
    assert("PENUP"@.len() != "PENDOWN"@.len());
    assert("PENDOWN"@.len() != "TO"@.len());
    assert("PENDOWN"@.len() != "SETPENCOLOR"@.len());
    assert("PENDOWN"@.len() != "TURN"@.len());
    assert("PENDOWN"@.len() != "SETHEADING"@.len());
}

/// `SETX` and `SETY` set different coordinates: a line whose first word is
/// `SETX` leaves a number to set x with (or stops the program), one whose
/// first word is `SETY` a number to set y with, and `FORWARD` one to move
/// by; none of them changes the turtle before the number is known. With
/// exactly one value token after the word, the number is always asked for.
pub proof fn law_coordinate_commands<'a, N: Copy>(
    old: Turtle<N>,
    new: Turtle<N>,
    lines: Seq<Seq<char>>,
    i: int,
    r: Step<'a, N>,
)
    requires
        0 <= i < lines.len(),
        !is_skipped_line(lines[i]),
        step_ok(old, new, lines, i, r),
    ensures
        line_tokens(lines[i])[0] == "SETX"@ ==> new == old && (r is Exit || number_command(r) == Some(NumberCommand::SetX)),
        line_tokens(lines[i])[0] == "SETY"@ ==> new == old && (r is Exit || number_command(r) == Some(NumberCommand::SetY)),
        line_tokens(lines[i])[0] == "FORWARD"@ ==> new == old && (r is Exit
            || number_command(r) == Some(NumberCommand::Move)),
        (line_tokens(lines[i])[0] == "SETX"@ || line_tokens(lines[i])[0] == "SETY"@)
            && line_tokens(lines[i]).len() == 2 ==> r is Number,
{
    lemma_command_words_differ();
}

/// `SETPENCOLOR`, `TURN` and `SETHEADING` each leave an integer for their
/// own command, and change nothing before it is known.
pub proof fn law_integer_commands<'a, N: Copy>(
    old: Turtle<N>,
    new: Turtle<N>,
    lines: Seq<Seq<char>>,
    i: int,
    r: Step<'a, N>,
)
    requires
        0 <= i < lines.len(),
        !is_skipped_line(lines[i]),
        step_ok(old, new, lines, i, r),
    ensures
        line_tokens(lines[i])[0] == "SETPENCOLOR"@ ==> new == old && (r is Exit
            || integer_command(r) == Some(IntegerCommand::SetPenColor)),
        line_tokens(lines[i])[0] == "TURN"@ ==> new == old && (r is Exit || integer_command(r) == Some(IntegerCommand::Turn)),
        line_tokens(lines[i])[0] == "SETHEADING"@ ==> new == old && (r is Exit
            || integer_command(r) == Some(IntegerCommand::SetHeading)),
{
    lemma_command_words_differ();
}

/// `PENUP` lifts the pen and `PENDOWN` lowers it, whatever the pen was
/// before; neither moves the turtle or touches its tables, and both go on
/// with the next line.
pub proof fn law_pen_commands<'a, N: Copy>(
    old: Turtle<N>,
    new: Turtle<N>,
    lines: Seq<Seq<char>>,
    i: int,
    r: Step<'a, N>,
)
    requires
        0 <= i < lines.len(),
        !is_skipped_line(lines[i]),
        step_ok(old, new, lines, i, r),
    ensures
        line_tokens(lines[i]) == seq!["PENUP"@] ==> !new.pen() && r == Step::<'a, N>::Goto(
            (i + 1) as usize,
        ) && new.spec_x() == old.spec_x() && new.spec_y() == old.spec_y() && new.color()
            == old.color() && new.heading() == old.heading() && new.same_tables(&old),
        line_tokens(lines[i]) == seq!["PENDOWN"@] ==> new.pen() && r == Step::<'a, N>::Goto(
            (i + 1) as usize,
        ) && new.spec_x() == old.spec_x() && new.spec_y() == old.spec_y() && new.color()
            == old.color() && new.heading() == old.heading() && new.same_tables(&old),
{
    lemma_command_words_differ();
}

/// A `PENUP` line after a `PENDOWN` line leaves the pen up, and a `PENDOWN`
/// after a `PENUP` leaves it down.
pub proof fn law_pen_last_word_wins<'a, N: Copy>(
    t0: Turtle<N>,
    t1: Turtle<N>,
    t2: Turtle<N>,
    lines: Seq<Seq<char>>,
    i: int,
    j: int,
    r1: Step<'a, N>,
    r2: Step<'a, N>,
)
    requires
        0 <= i < lines.len(),
        0 <= j < lines.len(),
        !is_skipped_line(lines[i]),
        !is_skipped_line(lines[j]),
        step_ok(t0, t1, lines, i, r1),
        step_ok(t1, t2, lines, j, r2),
    ensures
        line_tokens(lines[i]) == seq!["PENDOWN"@] && line_tokens(lines[j]) == seq!["PENUP"@]
            ==> t1.pen() && !t2.pen(),
        line_tokens(lines[i]) == seq!["PENUP"@] && line_tokens(lines[j]) == seq!["PENDOWN"@]
            ==> !t1.pen() && t2.pen(),
{
    law_pen_commands(t0, t1, lines, i, r1);
    law_pen_commands(t1, t2, lines, j, r2);
}

/// Whether `check` is how the condition of line `line` (with tokens `t`)
/// is evaluated on turtle `tu`.
pub open spec fn check_ok<N: Copy>(tu: Turtle<N>, line: int, t: Seq<Seq<char>>, check: CheckPlan) -> bool {
    &&& !tu.conds().contains_key(line as usize) ==> check is Unknown
    &&& tu.conds().contains_key(line as usize) && t.len() < 2 ==> check is Panics
    &&& tu.conds().contains_key(line as usize) && t.len() >= 2 ==> (check matches CheckPlan::Both(
        p1,
        p2,
    ) && comparison_plan_ok(tu.conds()[line as usize].0, t, p1) && comparison_plan_ok(
        tu.conds()[line as usize].1,
        t,
        p2,
    ))
}

fn check_plan_of<N: Copy>(line_idx: usize, params: &[&str], turtle: &Turtle<N>) -> (r: CheckPlan)
    requires
        turtle.wf(),
    ensures
        check_ok(*turtle, line_idx as int, str_views(params@), r),
{
    check_condition(line_idx, params, turtle)
}

/// Whether taking the first two bytes of `s` panics, and if not whether
/// they are `IF`.
fn first_two_bytes_if(s: &str) -> (r: Option<bool>)
    ensures
        r is None <==> cut_two_panics(s@),
        r matches Some(b) ==> b == starts_with_if(s@),
{
    let n = s.unicode_len();
    if n == 0 {
        return None;
    }
    let c0 = s.get_char(0) as u32;
    if c0 >= 0x800 {
        return None;
    }
    if c0 < 0x80 && (n < 2 || (s.get_char(1) as u32) >= 0x80) {
        return None;
    }
    if n < 2 {
        return Some(false);
    }
    Some(s.get_char(0) == 'I' && s.get_char(1) == 'F')
}

/// What line `i` of `commands` leaves to do. The turtle is changed where
/// the line needs no arithmetic: a `TO` defines a procedure, `PENDOWN` and
/// `PENUP` set the pen, and a `WHILE`/`IF` whose block is not yet recorded
/// records the blocks from line `i` on.
pub fn next_step<'a, N: Copy>(turtle: &mut Turtle<N>, commands: &'a Vec<String>, i: usize) -> (r:
    Step<'a, N>)
    requires
        old(turtle).wf(),
        i < commands@.len(),
    ensures
        final(turtle).wf(),
        step_ok(*old(turtle), *final(turtle), string_views(commands@), i as int, r),
{
    let ghost lines = string_views(commands@);
    let total = commands.len();
    let line = commands[i].as_str();
    proof {
        assert(lines[i as int] == line@);
    }
    let line_ref = trim_start(line);
    if line_ref.unicode_len() == 0 || is_comment(line_ref) {
        return Step::Goto(i + 1);
    }
    let splitted = split_spaces_of(line_ref);
    proof {
        lemma_split_nonempty(line_ref@);
        assert(str_views(splitted@)[0] == splitted@[0]@);
    }
    let w = splitted[0];
    let ghost t = str_views(splitted@);
    if str_eq(w, DEFINE_PROCEDURE) {
        match define_procedure(turtle, commands, i) {
            Ok(last_line) => {
                proof {
                    assert(last_line < commands@.len()) by {
                        crate::function::lemma_define_result_bound(lines, i as int);
                    }
                }
                Step::Goto(1 + last_line)
            },
            Err(_) => Step::Exit,
        }
    } else if str_eq(w, IS_SETPENCOLOR) || str_eq(w, IS_TURN) || str_eq(w, IS_SETHEADING) {
        if splitted.len() > 2 && !is_arithmetic_operator(splitted[1]) || splitted.len() == 1 {
            proof {
                if splitted@.len() > 2 {
                    assert(t[1] == splitted@[1]@);
                }
            }
            return Step::Exit;
        }
        proof {
            assert(t[1] == splitted@[1]@);
        }
        let value = parse_value(splitted.as_slice(), 1).unwrap();
        let command = if str_eq(w, IS_SETPENCOLOR) {
            IntegerCommand::SetPenColor
        } else if str_eq(w, IS_TURN) {
            IntegerCommand::Turn
        } else {
            IntegerCommand::SetHeading
        };
        Step::Integer { command: command, tokens: splitted, value: value }
    } else if str_eq(w, IS_PENDOWN) || str_eq(w, IS_PENUP) {
        if splitted.len() != 1 {
            return Step::Exit;
        }
        if str_eq(w, IS_PENDOWN) {
            turtle.set_pendown();
        } else {
            turtle.set_penup();
        }
        Step::Goto(i + 1)
    } else if str_eq(w, IS_SETX) || str_eq(w, IS_SETY) || str_eq(w, IS_FORWARD) || str_eq(
        w,
        IS_BACK,
    ) || str_eq(w, IS_RIGHT) || str_eq(w, IS_LEFT) {
        if splitted.len() > 2 && !is_arithmetic_operator(splitted[1]) || splitted.len() == 1 {
            proof {
                if splitted@.len() > 2 {
                    assert(t[1] == splitted@[1]@);
                }
            }
            return Step::Exit;
        }
        proof {
            assert(t[1] == splitted@[1]@);
        }
        let value = parse_value(splitted.as_slice(), 1).unwrap();
        let command = if str_eq(w, IS_SETX) {
            NumberCommand::SetX
        } else if str_eq(w, IS_SETY) {
            NumberCommand::SetY
        } else {
            NumberCommand::Move
        };
        Step::Number { command: command, tokens: splitted, value: value }
    } else if str_eq(w, IS_MAKE) {
        let plan = make_cmd(turtle, splitted.as_slice());
        Step::Make { tokens: splitted, plan: plan }
    } else if str_eq(w, IS_ADDASSIGN) {
        let plan = add_assign(turtle, splitted.as_slice());
        Step::AddAssign { tokens: splitted, plan: plan }
    } else if str_eq(w, IS_WHILE) || str_eq(w, IS_IF) {
        let recorded = turtle.search_end(i);
        if recorded.is_none() {
            let (outcome, _) = scan_controlflow(i, commands);
            if outcome == ScanOutcome::Panics {
                return Step::Panics;
            }
            if add_controlflow(i, commands, turtle).is_none() {
                return Step::Exit;
            }
        }
        let check = check_plan_of(i, splitted.as_slice(), turtle);
        let on_false = match turtle.search_end(i) {
            Some(k) => if k < usize::MAX {
                Some(k + 1)
            } else {
                None
            },
            None => None,
        };
        Step::Branch { tokens: splitted, check: check, on_true: i + 1, on_false: on_false }
    } else if str_eq(w, IS_CLOSE) {
        let s = match turtle.get_start_line(i) {
            Some(s) => *s,
            None => {
                return Step::Panics;
            },
        };
        if s >= total {
            return Step::Panics;
        }
        let cond_line = trim_start(commands[s].as_str());
        proof {
            assert(lines[s as int] == commands@[s as int]@);
        }
        match first_two_bytes_if(cond_line) {
            None => Step::Panics,
            Some(true) => Step::Goto(i + 1),
            Some(false) => {
                let cond_tokens = split_spaces_of(cond_line);
                let check = check_plan_of(s, cond_tokens.as_slice(), turtle);
                Step::Loop { tokens: cond_tokens, check: check, on_true: s + 1, on_false: i + 1 }
            },
        }
    } else if str_eq(w, PROCEDURE_END) {
        if turtle.has_end(i) {
            Step::Goto(i + 1)
        } else {
            Step::Exit
        }
    } else {
        match turtle.check_function(w) {
            Some(f) => {
                let body_start = if f.start < usize::MAX {
                    Some(f.start + 1)
                } else {
                    None
                };
                let body_end = f.end;
                let args = parse_func_arguments(f, splitted.as_slice());
                Step::Call { tokens: splitted, body_start: body_start, body_end: body_end, args: args }
            },
            None => Step::Exit,
        }
    }
}

} // verus!
