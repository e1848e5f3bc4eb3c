//! Command words of the language, the records kept by the turtle, and the
//! small classifiers of tokens.
use vstd::prelude::*;

verus! {

pub const IS_PENDOWN: &'static str = "PENDOWN";

pub const IS_PENUP: &'static str = "PENUP";

pub const IS_SETX: &'static str = "SETX";

pub const IS_SETY: &'static str = "SETY";

pub const IS_FORWARD: &'static str = "FORWARD";

pub const IS_BACK: &'static str = "BACK";

pub const IS_RIGHT: &'static str = "RIGHT";

pub const IS_LEFT: &'static str = "LEFT";

pub const IS_TURN: &'static str = "TURN";

pub const IS_SETHEADING: &'static str = "SETHEADING";

pub const IS_MAKE: &'static str = "MAKE";

pub const IS_SETPENCOLOR: &'static str = "SETPENCOLOR";

pub const IS_ADDASSIGN: &'static str = "ADDASSIGN";

pub const IS_CLOSE: &'static str = "]";

pub const IS_WHILE: &'static str = "WHILE";

pub const IS_IF: &'static str = "IF";

pub const DEFINE_PROCEDURE: &'static str = "TO";

pub const PROCEDURE_END: &'static str = "END";

/// The value of a variable: a number (`is_f32`, held in `f32_value`) or a
/// word (held in `str_value`). `N` is the number type of the interpreter.
#[derive(Debug, Clone, PartialEq)]
pub struct VarMapValue<N> {
    pub is_f32: bool,
    pub f32_value: N,
    pub str_value: String,
}

/// A procedure defined with `TO name :arg1 :arg2 ...` and closed by `END`.
#[derive(Debug, Clone, PartialEq)]
pub struct Func {
    pub num_args: i32,
    /// The line of the `TO` that defines the procedure.
    pub start: usize,
    /// The line of the `END` that closes it.
    pub end: usize,
    /// The parameter tokens, joined with single spaces (`:arg1 :arg2 ..`).
    pub argv: String,
}

/// One comparison of a `WHILE` or `IF` line.
#[derive(Debug, Clone, Copy, PartialEq, Eq, Structural)]
pub struct Condition {
    /// The comparison holds whatever the line says (used for the missing
    /// second comparison of a line with a single one).
    pub assigned_true: bool,
    /// The token index of the comparison word (`EQ`, `NE`, `GT`, `LT`).
    pub cond_start: usize,
}

/// The four arithmetic operators.
#[derive(Debug, Clone, Copy, PartialEq, Eq, Structural)]
pub enum Operator {
    Add,
    Sub,
    Mul,
    Div,
}

/// The operator that a token names, if it names one.
pub open spec fn operator_named(s: Seq<char>) -> Option<Operator> {
    if s == seq!['+'] {
        Some(Operator::Add)
    } else if s == seq!['-'] {
        Some(Operator::Sub)
    } else if s == seq!['*'] {
        Some(Operator::Mul)
    } else if s == seq!['/'] {
        Some(Operator::Div)
    } else {
        None
    }
}

/// Whether a token is one of `+`, `-`, `*`, `/`.
pub open spec fn is_operator_name(s: Seq<char>) -> bool {
    operator_named(s) is Some
}

/// Whether a line is a comment: its first two characters are `//`.
pub open spec fn is_comment_spec(s: Seq<char>) -> bool {
    s.len() >= 2 && s[0] == '/' && s[1] == '/'
}

/// The operator named by `name` (`+`, `-`, `*` or `/`), if any.
pub fn operator_of(name: &str) -> (r: Option<Operator>)
    ensures
        r == operator_named(name@),
{
    if name.unicode_len() != 1 {
        proof {
            assert(seq!['+'].len() == 1);
        }
        return None;
    }
    let c = name.get_char(0);
    assert(name@ =~= seq![c]);
    if c == '+' {
        Some(Operator::Add)
    } else if c == '-' {
        Some(Operator::Sub)
    } else if c == '*' {
        Some(Operator::Mul)
    } else if c == '/' {
        Some(Operator::Div)
    } else {
        proof {
            assert(seq![c] != seq!['+'] && seq![c] != seq!['-'] && seq![c] != seq!['*'] && seq![c]
                != seq!['/']) by {
                assert(seq![c][0] == c);
            }
        }
        None
    }
}

/// Returns true when `argu` is one of `+`, `-`, `*`, `/`.
pub fn is_arithmetic_operator(argu: &str) -> (r: bool)
    ensures
        r == is_operator_name(argu@),
{
    match operator_of(argu) {
        Some(_) => true,
        None => false,
    }
}

/// Whether a line starts with `//`.
pub fn is_comment(line: &str) -> (r: bool)
    ensures
        r == is_comment_spec(line@),
{
    line.unicode_len() >= 2 && line.get_char(0) == '/' && line.get_char(1) == '/'
}

} // verus!
