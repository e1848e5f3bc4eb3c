//! The turtle: its position, pen, colour and heading, and the tables of
//! variables, procedures and control-flow lines that a program builds.
//!
//! `N` is the interpreter's number type; the turtle only stores and hands
//! back numbers and never computes with them.
use vstd::prelude::*;
use crate::constant::{Condition, Func, VarMapValue, IS_BACK, IS_FORWARD, IS_LEFT, IS_RIGHT};
use crate::table::{LineTable, NameTable};
use crate::text::str_eq;
use crate::helper::{Value, holds_value};

verus! {

/// A value that a token denotes for the turtle.
#[derive(Debug, PartialEq)]
pub enum Lookup<'a, N> {
    /// A number that the turtle holds (a coordinate or a numeric variable).
    Number(N),
    /// An integer attribute of the turtle (its colour or heading), read as a number.
    Integer(i32),
    /// A word that a variable holds.
    Word(String),
    /// The text after the `"` of a quoted token: a number when it parses as one,
    /// otherwise a word.
    Literal(&'a str),
}

/// What a query word (`XCOR`, `YCOR`, `COLOR`, `HEADING`) denotes.
#[derive(Debug, PartialEq)]
pub enum QueryValue<N> {
    Coordinate(N),
    Integer(i32),
}

/// The offset from the heading of each movement command.
pub open spec fn direction_offset(cmd: Seq<char>) -> int {
    if cmd == IS_BACK@ {
        180
    } else if cmd == IS_RIGHT@ {
        90
    } else if cmd == IS_LEFT@ {
        270
    } else {
        0
    }
}

/// Whether `cmd` is one of `FORWARD`, `BACK`, `RIGHT`, `LEFT`.
pub open spec fn is_move_command(cmd: Seq<char>) -> bool {
    cmd == IS_FORWARD@ || cmd == IS_BACK@ || cmd == IS_RIGHT@ || cmd == IS_LEFT@
}

pub struct Turtle<N> {
    x: N,
    y: N,
    color_idx: i32,
    heading: i32,
    pen_down: bool,
    var_map: NameTable<VarMapValue<N>>,
    func_map: NameTable<Func>,
    // key: the line where the block ends, value: the line where it starts
    cond_map: LineTable<usize>,
    conditions: LineTable<(Condition, Condition)>,
}

fn copy_value<N: Copy>(v: &VarMapValue<N>) -> (r: VarMapValue<N>)
    ensures
        r == *v,
{
    VarMapValue { is_f32: v.is_f32, f32_value: v.f32_value, str_value: v.str_value.clone() }
}

impl<N: Copy> Turtle<N> {
    pub closed spec fn wf(&self) -> bool {
        &&& self.var_map.wf()
        &&& self.func_map.wf()
        &&& self.cond_map.wf()
        &&& self.conditions.wf()
    }

    pub closed spec fn spec_x(&self) -> N {
        self.x
    }

    pub closed spec fn spec_y(&self) -> N {
        self.y
    }

    pub closed spec fn color(&self) -> i32 {
        self.color_idx
    }

    pub closed spec fn heading(&self) -> i32 {
        self.heading
    }

    pub closed spec fn pen(&self) -> bool {
        self.pen_down
    }

    /// The variables, by name.
    pub closed spec fn vars(&self) -> Map<Seq<char>, VarMapValue<N>> {
        self.var_map.view()
    }

    /// The procedures, by name.
    pub closed spec fn funcs(&self) -> Map<Seq<char>, Func> {
        self.func_map.view()
    }

    /// The line that opens the block closed at each `]` line.
    pub closed spec fn starts(&self) -> Map<usize, usize> {
        self.cond_map.view()
    }

    /// The two comparisons of each `WHILE` or `IF` line.
    pub closed spec fn conds(&self) -> Map<usize, (Condition, Condition)> {
        self.conditions.view()
    }

    /// Position, pen, colour and heading agree.
    pub open spec fn same_scalars(&self, other: &Self) -> bool {
        &&& self.spec_x() == other.spec_x()
        &&& self.spec_y() == other.spec_y()
        &&& self.color() == other.color()
        &&& self.heading() == other.heading()
        &&& self.pen() == other.pen()
    }

    /// All four tables agree.
    pub open spec fn same_tables(&self, other: &Self) -> bool {
        &&& self.vars() == other.vars()
        &&& self.funcs() == other.funcs()
        &&& self.starts() == other.starts()
        &&& self.conds() == other.conds()
    }

    /// What `search_varmap` gives for a token: for `:name` the variable's
    /// value, for `"text` the literal text.
    pub open spec fn varmap_lookup_ok<'a>(&self, s: Seq<char>, r: Option<Lookup<'a, N>>) -> bool {
        if s.len() > 0 && s[0] == ':' {
            let name = s.drop_first();
            if self.vars().contains_key(name) {
                let v = self.vars()[name];
                if v.is_f32 {
                    r == Some(Lookup::<'a, N>::Number(v.f32_value))
                } else {
                    r matches Some(Lookup::Word(w)) && w@ == v.str_value@
                }
            } else {
                r is None
            }
        } else if s.len() > 0 && s[0] == '"' {
            r matches Some(Lookup::Literal(t)) && t@ == s.drop_first()
        } else {
            r is None
        }
    }

    /// What `parse_or_search_map` gives for a token: the value of a query
    /// word, else what `search_varmap` gives.
    pub open spec fn operand_ok<'a>(&self, s: Seq<char>, r: Option<Lookup<'a, N>>) -> bool {
        if s == "XCOR"@ {
            r == Some(Lookup::<'a, N>::Number(self.spec_x()))
        } else if s == "YCOR"@ {
            r == Some(Lookup::<'a, N>::Number(self.spec_y()))
        } else if s == "COLOR"@ {
            r == Some(Lookup::<'a, N>::Integer(self.color()))
        } else if s == "HEADING"@ {
            r == Some(Lookup::<'a, N>::Integer(self.heading()))
        } else {
            self.varmap_lookup_ok(s, r)
        }
    }

    /// What `make_query` gives for a query word.
    pub open spec fn query_ok(&self, q: Seq<char>, r: Option<QueryValue<N>>) -> bool {
        if q == "XCOR"@ {
            r == Some(QueryValue::Coordinate(self.spec_x()))
        } else if q == "YCOR"@ {
            r == Some(QueryValue::Coordinate(self.spec_y()))
        } else if q == "COLOR"@ {
            r == Some(QueryValue::<N>::Integer(self.color()))
        } else if q == "HEADING"@ {
            r == Some(QueryValue::<N>::Integer(self.heading()))
        } else {
            r is None
        }
    }

    /// A turtle at `(x, y)` with the given colour and heading, pen up, and
    /// with no variables, procedures or blocks.
    pub fn new(x: N, y: N, color_idx: i32, heading: i32) -> (t: Self)
        ensures
            t.wf(),
            t.spec_x() == x,
            t.spec_y() == y,
            t.color() == color_idx,
            t.heading() == heading,
            !t.pen(),
            t.vars() == Map::<Seq<char>, VarMapValue<N>>::empty(),
            t.funcs() == Map::<Seq<char>, Func>::empty(),
            t.starts() == Map::<usize, usize>::empty(),
            t.conds() == Map::<usize, (Condition, Condition)>::empty(),
    {
        Turtle {
            x: x,
            y: y,
            color_idx: color_idx,
            heading: heading,
            pen_down: false,
            var_map: NameTable::new(),
            func_map: NameTable::new(),
            cond_map: LineTable::new(),
            conditions: LineTable::new(),
        }
    }

    /// A turtle to run a procedure in: the same position, colour, heading
    /// and pen, with no variables, procedures or blocks of its own.
    pub fn call_frame(&self) -> (t: Self)
        ensures
            t.wf(),
            t.same_scalars(self),
            t.vars() == Map::<Seq<char>, VarMapValue<N>>::empty(),
            t.funcs() == Map::<Seq<char>, Func>::empty(),
            t.starts() == Map::<usize, usize>::empty(),
            t.conds() == Map::<usize, (Condition, Condition)>::empty(),
    {
        let mut t = Turtle::new(self.x, self.y, self.color_idx, self.heading);
        if self.pen_down {
            t.set_pendown();
        }
        t
    }

    /// Records that the block closed at line `k` opens at line `v`.
    pub fn insert_condmap(&mut self, k: usize, v: usize)
        requires
            old(self).wf(),
        ensures
            final(self).wf(),
            final(self).starts() == old(self).starts().insert(k, v),
            final(self).same_scalars(old(self)),
            final(self).vars() == old(self).vars(),
            final(self).funcs() == old(self).funcs(),
            final(self).conds() == old(self).conds(),
    {
        self.cond_map.insert(k, v);
    }

    /// Records the two comparisons of the `WHILE` or `IF` at line `start_idx`.
    pub fn add_2conditions(&mut self, start_idx: usize, cond_1: Condition, cond_2: Condition)
        requires
            old(self).wf(),
        ensures
            final(self).wf(),
            final(self).conds() == old(self).conds().insert(start_idx, (cond_1, cond_2)),
            final(self).same_scalars(old(self)),
            final(self).vars() == old(self).vars(),
            final(self).funcs() == old(self).funcs(),
            final(self).starts() == old(self).starts(),
    {
        self.conditions.insert(start_idx, (cond_1, cond_2));
    }

    /// The comparisons recorded for line `line_idx`.
    pub fn get_conds(&self, line_idx: usize) -> (r: Option<&(Condition, Condition)>)
        requires
            self.wf(),
        ensures
            r == (if self.conds().contains_key(line_idx) {
                Some(&self.conds()[line_idx])
            } else {
                None
            }),
    {
        self.conditions.get(line_idx)
    }

    /// The `]` line of the block that opens at line `start`, if one is recorded.
    pub fn search_end(&self, start: usize) -> (r: Option<usize>)
        requires
            self.wf(),
        ensures
            r matches Some(k) ==> self.starts().contains_key(k) && self.starts()[k] == start,
            r is None ==> forall|k: usize| #[trigger]
                self.starts().contains_key(k) ==> self.starts()[k] != start,
    {
        self.cond_map.key_with_value(start)
    }

    /// The line that opens the block closed at line `close_line`.
    pub fn get_start_line(&self, close_line: usize) -> (r: Option<&usize>)
        requires
            self.wf(),
        ensures
            r == (if self.starts().contains_key(close_line) {
                Some(&self.starts()[close_line])
            } else {
                None
            }),
    {
        self.cond_map.get(close_line)
    }

    pub fn set_pendown(&mut self)
        ensures
            final(self).pen(),
            final(self).spec_x() == old(self).spec_x(),
            final(self).spec_y() == old(self).spec_y(),
            final(self).color() == old(self).color(),
            final(self).heading() == old(self).heading(),
            final(self).same_tables(old(self)),
            final(self).wf() == old(self).wf(),
    {
        self.pen_down = true;
    }

    pub fn set_penup(&mut self)
        ensures
            !final(self).pen(),
            final(self).spec_x() == old(self).spec_x(),
            final(self).spec_y() == old(self).spec_y(),
            final(self).color() == old(self).color(),
            final(self).heading() == old(self).heading(),
            final(self).same_tables(old(self)),
            final(self).wf() == old(self).wf(),
    {
        self.pen_down = false;
    }

    pub fn set_x(&mut self, new_x: N)
        ensures
            final(self).spec_x() == new_x,
            final(self).spec_y() == old(self).spec_y(),
            final(self).color() == old(self).color(),
            final(self).heading() == old(self).heading(),
            final(self).pen() == old(self).pen(),
            final(self).same_tables(old(self)),
            final(self).wf() == old(self).wf(),
    {
        self.x = new_x;
    }

    pub fn set_y(&mut self, new_y: N)
        ensures
            final(self).spec_y() == new_y,
            final(self).spec_x() == old(self).spec_x(),
            final(self).color() == old(self).color(),
            final(self).heading() == old(self).heading(),
            final(self).pen() == old(self).pen(),
            final(self).same_tables(old(self)),
            final(self).wf() == old(self).wf(),
    {
        self.y = new_y;
    }

    pub fn set_color(&mut self, new_idx: i32)
        ensures
            final(self).color() == new_idx,
            final(self).spec_x() == old(self).spec_x(),
            final(self).spec_y() == old(self).spec_y(),
            final(self).heading() == old(self).heading(),
            final(self).pen() == old(self).pen(),
            final(self).same_tables(old(self)),
            final(self).wf() == old(self).wf(),
    {
        self.color_idx = new_idx;
    }

    pub fn set_heading(&mut self, new_heading: i32)
        ensures
            final(self).heading() == new_heading,
            final(self).spec_x() == old(self).spec_x(),
            final(self).spec_y() == old(self).spec_y(),
            final(self).color() == old(self).color(),
            final(self).pen() == old(self).pen(),
            final(self).same_tables(old(self)),
            final(self).wf() == old(self).wf(),
    {
        self.heading = new_heading;
    }

    /// Turns the turtle clockwise by `new_heading` degrees.
    pub fn turn(&mut self, new_heading: i32)
        requires
            i32::MIN <= old(self).heading() + new_heading <= i32::MAX,
        ensures
            final(self).heading() == old(self).heading() + new_heading,
            final(self).spec_x() == old(self).spec_x(),
            final(self).spec_y() == old(self).spec_y(),
            final(self).color() == old(self).color(),
            final(self).pen() == old(self).pen(),
            final(self).same_tables(old(self)),
            final(self).wf() == old(self).wf(),
    {
        self.heading += new_heading;
    }

    pub fn get_x(&self) -> (r: N)
        ensures
            r == self.spec_x(),
    {
        self.x
    }

    pub fn get_y(&self) -> (r: N)
        ensures
            r == self.spec_y(),
    {
        self.y
    }

    pub fn get_direction(&self) -> (r: i32)
        ensures
            r == self.heading(),
    {
        self.heading
    }

    pub fn get_color(&self) -> (r: i32)
        ensures
            r == self.color(),
    {
        self.color_idx
    }

    pub fn get_pen_status(&self) -> (r: bool)
        ensures
            r == self.pen(),
    {
        self.pen_down
    }

    /// The procedure named `name`, if one is defined.
    pub fn check_function(&self, name: &str) -> (r: Option<&Func>)
        requires
            self.wf(),
        ensures
            r == (if self.funcs().contains_key(name@) {
                Some(&self.funcs()[name@])
            } else {
                None
            }),
    {
        self.func_map.get(name)
    }

    /// Whether line `line_idx` is the `END` of a stored procedure; false
    /// when no stored procedure ends there.
    pub fn has_end(&self, line_idx: usize) -> (r: bool)
        requires
            self.wf(),
        ensures
            r == exists|n: Seq<char>| #[trigger]
                self.funcs().contains_key(n) && self.funcs()[n].end == line_idx,
    {
        let r = self.func_map.has_end_line(line_idx);
        proof {
            if r {
                let n = choose|n: Seq<char>| #[trigger]
                    self.func_map.view().contains_key(n) && self.func_map.view()[n].end == line_idx;
                assert(self.funcs().contains_key(n) && self.funcs()[n].end == line_idx);
            } else {
                assert forall|n: Seq<char>| #[trigger] self.funcs().contains_key(n) implies self.funcs()[n].end
                    != line_idx by {
                    assert(self.func_map.view().contains_key(n));
                }
            }
        }
        r
    }

    /// Sets variable `k` to a number (`is_f32`, `f32_val`) or a word (`str_value`).
    pub fn insert_varmap(&mut self, k: &str, is_f32: bool, f32_val: N, str_value: String)
        requires
            old(self).wf(),
        ensures
            final(self).wf(),
            final(self).vars() == old(self).vars().insert(
                k@,
                VarMapValue { is_f32: is_f32, f32_value: f32_val, str_value: str_value },
            ),
            final(self).same_scalars(old(self)),
            final(self).funcs() == old(self).funcs(),
            final(self).starts() == old(self).starts(),
            final(self).conds() == old(self).conds(),
    {
        self.var_map.insert(
            k,
            VarMapValue { is_f32: is_f32, f32_value: f32_val, str_value: str_value },
        );
    }

    /// Stores `value` in variable `name`, as `MAKE` and a procedure's
    /// parameters do: a number as a number, a word as a word (with `unused`
    /// in the number slot).
    pub fn store_value(&mut self, name: &str, value: Value<N>, unused: N)
        requires
            old(self).wf(),
        ensures
            final(self).wf(),
            final(self).vars() == old(self).vars().insert(name@, final(self).vars()[name@]),
            holds_value(final(self).vars()[name@], value, unused),
            final(self).same_scalars(old(self)),
            final(self).funcs() == old(self).funcs(),
            final(self).starts() == old(self).starts(),
            final(self).conds() == old(self).conds(),
    {
        match value {
            Value::Number(n) => self.insert_varmap(name, true, n, String::new()),
            Value::Word(w) => self.insert_varmap(name, false, unused, w),
        }
    }

    /// After a procedure has run in `frame`, the caller takes the frame's
    /// position, colour and heading; its pen and tables stay as they were.
    pub fn return_from_call(&mut self, frame: &Turtle<N>)
        ensures
            final(self).spec_x() == frame.spec_x(),
            final(self).spec_y() == frame.spec_y(),
            final(self).color() == frame.color(),
            final(self).heading() == frame.heading(),
            final(self).pen() == old(self).pen(),
            final(self).same_tables(old(self)),
            final(self).wf() == old(self).wf(),
    {
        self.set_x(frame.get_x());
        self.set_y(frame.get_y());
        self.set_color(frame.get_color());
        self.set_heading(frame.get_direction());
    }

    /// Defines procedure `f_name`.
    pub fn insert_funcmap(
        &mut self,
        f_name: &str,
        start_line: usize,
        end_line: usize,
        num_args: i32,
        argv_list: String,
    )
        requires
            old(self).wf(),
        ensures
            final(self).wf(),
            final(self).funcs() == old(self).funcs().insert(
                f_name@,
                Func { num_args: num_args, start: start_line, end: end_line, argv: argv_list },
            ),
            final(self).same_scalars(old(self)),
            final(self).vars() == old(self).vars(),
            final(self).starts() == old(self).starts(),
            final(self).conds() == old(self).conds(),
    {
        let new_func = Func {
            num_args: num_args,
            start: start_line,
            end: end_line,
            argv: argv_list,
        };
        self.func_map.insert(f_name, new_func);
    }

    /// The value of a query word: `XCOR`, `YCOR`, `COLOR` or `HEADING`.
    pub fn make_query(&self, q: &str) -> (r: Option<QueryValue<N>>)
        ensures
            self.query_ok(q@, r),
    {
        if str_eq(q, "XCOR") {
            Some(QueryValue::Coordinate(self.x))
        } else if str_eq(q, "YCOR") {
            Some(QueryValue::Coordinate(self.y))
        } else if str_eq(q, "COLOR") {
            Some(QueryValue::Integer(self.color_idx))
        } else if str_eq(q, "HEADING") {
            Some(QueryValue::Integer(self.heading))
        } else {
            None
        }
    }

    /// The number held by variable `key_name`; none if it is unset or holds a word.
    pub fn search_assign(&self, key_name: &str) -> (r: Option<N>)
        requires
            self.wf(),
        ensures
            r == (if self.vars().contains_key(key_name@) && self.vars()[key_name@].is_f32 {
                Some(self.vars()[key_name@].f32_value)
            } else {
                None
            }),
    {
        match self.var_map.get(key_name) {
            None => None,
            Some(val) => {
                if !val.is_f32 {
                    return None;
                }
                Some(val.f32_value)
            },
        }
    }

    /// What a `:name` or `"text` token denotes.
    pub fn search_varmap<'a>(&self, in_str: &'a str) -> (r: Option<Lookup<'a, N>>)
        requires
            self.wf(),
        ensures
            self.varmap_lookup_ok(in_str@, r),
    {
        let n = in_str.unicode_len();
        if n == 0 {
            return None;
        }
        let c = in_str.get_char(0);
        if c == ':' {
            let name = in_str.substring_char(1, n);
            assert(name@ =~= in_str@.drop_first());
            match self.var_map.get(name) {
                Some(val) => {
                    if val.is_f32 {
                        Some(Lookup::Number(val.f32_value))
                    } else {
                        Some(Lookup::Word(val.str_value.clone()))
                    }
                },
                None => None,
            }
        } else if c == '"' {
            let text = in_str.substring_char(1, n);
            assert(text@ =~= in_str@.drop_first());
            Some(Lookup::Literal(text))
        } else {
            None
        }
    }

    /// What a token denotes: a query word, a variable or a quoted literal.
    pub fn parse_or_search_map<'a>(&self, in_str: &'a str) -> (r: Option<Lookup<'a, N>>)
        requires
            self.wf(),
        ensures
            self.operand_ok(in_str@, r),
    {
        match self.make_query(in_str) {
            Some(QueryValue::Coordinate(v)) => Some(Lookup::Number(v)),
            Some(QueryValue::Integer(i)) => Some(Lookup::Integer(i)),
            None => self.search_varmap(in_str),
        }
    }

    /// The direction in degrees of a movement command (`FORWARD`, `BACK`,
    /// `RIGHT`, `LEFT`), relative to the turtle's heading.
    pub fn moving_direction(&self, command_dir: &str) -> (r: i32)
        requires
            is_move_command(command_dir@),
            self.heading() + 270 <= i32::MAX,
        ensures
            r == self.heading() + direction_offset(command_dir@),
    {
        proof {
            reveal_strlit("FORWARD");
            reveal_strlit("BACK");
            reveal_strlit("RIGHT");
            reveal_strlit("LEFT");
        }
        if str_eq(command_dir, IS_BACK) {
            180 + self.heading
        } else if str_eq(command_dir, IS_RIGHT) {
            90 + self.heading
        } else if str_eq(command_dir, IS_LEFT) {
            270 + self.heading
        } else {
            self.heading
        }
    }
}


/// A variable reads back what was last stored in it: once variable `k` is
/// set to `v`, the token `:k` denotes the stored number, or the stored word.
pub proof fn law_variable_reads_back<'a, N: Copy>(
    before: Turtle<N>,
    after: Turtle<N>,
    k: Seq<char>,
    v: VarMapValue<N>,
    r: Option<Lookup<'a, N>>,
)
    requires
        after.vars() == before.vars().insert(k, v),
        after.varmap_lookup_ok(seq![':'] + k, r),
    ensures
        v.is_f32 ==> r == Some(Lookup::<'a, N>::Number(v.f32_value)),
        !v.is_f32 ==> (r matches Some(Lookup::Word(w)) && w@ == v.str_value@),
{
    assert((seq![':'] + k)[0] == ':');
    assert((seq![':'] + k).drop_first() =~= k);
}

} // verus!
