//! Procedures: defining one with `TO name :a :b ... END`, and reading the
//! arguments of a call.
use vstd::prelude::*;
use crate::constant::Func;
use crate::helper::{Value, holds_value, ValuePlan, parse_value, value_plan_ok, cut_first_char, name_cut_ok};
use crate::text::{law_split_undoes_join, lemma_split_pieces_no_space, trim_start_spec, str_views, string_views, str_eq, line_tokens, join_spaces, split_spaces,
    split_spaces_of, join_from, tokenize};
use crate::turtle::Turtle;

verus! {

/// Why a procedure definition is refused.
#[derive(Debug, PartialEq)]
pub enum ProcedureError {
    /// No line `END` follows the definition.
    MissingEnd,
    /// The `TO` line names no procedure.
    MissingName,
}

impl ProcedureError {
    /// The message of the error.
    pub fn message(&self) -> (r: &'static str)
        ensures
            r@ == (if self is MissingEnd {
                "procedure doesnt have END"@
            } else {
                "not enough arguments"@
            }),
    {
        match self {
            ProcedureError::MissingEnd => "procedure doesnt have END",
            ProcedureError::MissingName => "not enough arguments",
        }
    }
}

/// The first line from `k` on that is exactly `END`.
pub open spec fn first_end_from(lines: Seq<Seq<char>>, k: int) -> Option<int>
    decreases lines.len() - k,
{
    if k >= lines.len() || k < 0 {
        None
    } else if lines[k] == "END"@ {
        Some(k)
    } else {
        first_end_from(lines, k + 1)
    }
}

proof fn lemma_first_end(lines: Seq<Seq<char>>, k: int, e: int)
    requires
        0 <= k <= e < lines.len(),
        lines[e] == "END"@,
        forall|j: int| k <= j < e ==> lines[j] != "END"@,
    ensures
        first_end_from(lines, k) == Some(e),
    decreases e - k,
{
    if k < e {
        lemma_first_end(lines, k + 1, e);
    }
}

proof fn lemma_no_end(lines: Seq<Seq<char>>, k: int)
    requires
        0 <= k,
        forall|j: int| k <= j < lines.len() ==> lines[j] != "END"@,
    ensures
        first_end_from(lines, k) is None,
    decreases lines.len() - k,
{
    if k < lines.len() {
        lemma_no_end(lines, k + 1);
    }
}

/// What `define_procedure` returns for the `TO` at line `i`: the line of
/// the first `END` from `i` on (refused when there is none, or when it is
/// line 0), refused when the `TO` line has no name.
pub open spec fn define_result(lines: Seq<Seq<char>>, i: int) -> Result<usize, ProcedureError> {
    let e = first_end_from(lines, i);
    if e is None || e == Some(0int) {
        Err(ProcedureError::MissingEnd)
    } else if line_tokens(lines[i]).len() < 2 {
        Err(ProcedureError::MissingName)
    } else {
        Ok(e->0 as usize)
    }
}

/// How `define_procedure` changes the turtle: on success it defines the
/// procedure named by token 1 of the `TO` line, from line `i` to the `END`,
/// with the tokens after the name as parameters; nothing else changes.
pub open spec fn define_effect<N: Copy>(
    old: Turtle<N>,
    new: Turtle<N>,
    lines: Seq<Seq<char>>,
    i: int,
) -> bool {
    &&& new.wf()
    &&& new.same_scalars(&old)
    &&& new.vars() == old.vars()
    &&& new.starts() == old.starts()
    &&& new.conds() == old.conds()
    &&& match define_result(lines, i) {
        Ok(e) => {
            let toks = line_tokens(lines[i]);
            let f = new.funcs()[toks[1]];
            &&& new.funcs() == old.funcs().insert(toks[1], f)
            &&& f.num_args == (toks.len() - 2) as i32
            &&& f.start == i
            &&& f.end == e
            &&& f.argv@ == join_spaces(toks.skip(2))
        },
        Err(_) => new.funcs() == old.funcs(),
    }
}

proof fn lemma_first_end_bound(lines: Seq<Seq<char>>, k: int)
    ensures
        first_end_from(lines, k) matches Some(e) ==> k <= e < lines.len(),
    decreases lines.len() - k,
{
    if 0 <= k < lines.len() && lines[k] != "END"@ {
        lemma_first_end_bound(lines, k + 1);
    }
}

/// The `END` line of a definition lies within the program.
pub proof fn lemma_define_result_bound(lines: Seq<Seq<char>>, i: int)
    requires
        0 <= i,
        lines.len() <= usize::MAX,
    ensures
        define_result(lines, i) matches Ok(e) ==> i <= e < lines.len(),
{
    lemma_first_end_bound(lines, i);
}

/// The first line from `i` on that is exactly `END`.
fn find_end(commands: &Vec<String>, i: usize) -> (r: Option<usize>)
    ensures
        match r {
            Some(k) => first_end_from(string_views(commands@), i as int) == Some(k as int),
            None => first_end_from(string_views(commands@), i as int) is None,
        },
{
    let ghost lines = string_views(commands@);
    let total = commands.len();
    let mut k = i;
    while k < total
        invariant
            lines == string_views(commands@),
            total == commands@.len(),
            i <= k,
            forall|j: int| i <= j < k ==> lines[j] != "END"@,
        decreases total - k,
    {
        proof {
            assert(lines[k as int] == commands@[k as int]@);
        }
        if str_eq(commands[k].as_str(), "END") {
            proof {
                lemma_first_end(lines, i as int, k as int);
            }
            return Some(k);
        }
        k = k + 1;
    }
    proof {
        lemma_no_end(lines, i as int);
    }
    None
}

/// Defines the procedure whose `TO` line is line `i`: it ends at the first
/// line from `i` on that is exactly `END`; its name is the second token of
/// line `i` and its parameters the tokens after the name. Returns the line
/// of the `END`.
pub fn define_procedure<N: Copy>(turtle: &mut Turtle<N>, commands: &Vec<String>, i: usize) -> (r:
    Result<usize, ProcedureError>)
    requires
        old(turtle).wf(),
    ensures
        r == define_result(string_views(commands@), i as int),
        define_effect(*old(turtle), *final(turtle), string_views(commands@), i as int),
{
    let ghost lines = string_views(commands@);
    let last_line: usize = match find_end(commands, i) {
        Some(k) => k,
        None => 0,
    };
    if 0 == last_line {
        return Err(ProcedureError::MissingEnd);
    }
    let splitted = tokenize(commands[i].as_str());
    proof {
        assert(lines[i as int] == commands@[i as int]@);
    }
    if splitted.len() < 2 {
        return Err(ProcedureError::MissingName);
    }
    let argv = join_from(&splitted, 2);
    proof {
        assert(str_views(splitted@)[1] == splitted@[1]@);
    }
    turtle.insert_funcmap(splitted[1], i, last_line, (splitted.len() - 2) as i32, argv);
    Ok(last_line)
}

/// One argument of a procedure call.
#[derive(Debug, PartialEq)]
pub enum ArgStep {
    /// The call is the procedure name alone: there is no value to read (`None`).
    NoValue,
    /// Reading the value indexes past the tokens: a panic.
    Panics,
    /// Bind the value read by `value` to parameter `name`; `name` is `None`
    /// where the parameter's name cannot be taken (a missing parameter, or
    /// cutting its `:` cuts inside a character): a panic once the value has
    /// been read.
    Bind { value: ValuePlan, name: Option<String> },
}

/// What binding one argument of a call comes to.
#[derive(Debug, PartialEq, Eq, Structural, Clone, Copy)]
pub enum BindOutcome {
    /// The value is bound to its parameter in the procedure's frame.
    Bound,
    /// The program stops with exit status 1.
    Exit,
    /// The program panics.
    Panics,
}

/// What binding the argument read by `step` comes to, given whether its
/// value could be read: no value stops the program, a parameter without a
/// name panics once the value is read.
pub open spec fn bind_outcome(step: ArgStep, has_value: bool) -> BindOutcome {
    match step {
        ArgStep::NoValue => BindOutcome::Exit,
        ArgStep::Panics => BindOutcome::Panics,
        ArgStep::Bind { value, name } => if !has_value {
            BindOutcome::Exit
        } else if name is None {
            BindOutcome::Panics
        } else {
            BindOutcome::Bound
        },
    }
}

/// Binds one argument of a call in the procedure's own frame `frame`.
/// `value` is what `step` reads, read in the caller's frame (`None` where
/// it could not be read); only the frame changes, and only its variable
/// named by the parameter.
pub fn bind_argument<N: Copy>(frame: &mut Turtle<N>, step: &ArgStep, value: Option<Value<N>>, unused: N) -> (r:
    BindOutcome)
    requires
        old(frame).wf(),
    ensures
        final(frame).wf(),
        r == bind_outcome(*step, value is Some),
        r != BindOutcome::Bound ==> *final(frame) == *old(frame),
        r == BindOutcome::Bound ==> (step matches ArgStep::Bind { name: Some(n), .. }
            && value matches Some(v) && final(frame).vars() == old(frame).vars().insert(
            n@,
            final(frame).vars()[n@],
        ) && holds_value(final(frame).vars()[n@], v, unused)),
        final(frame).same_scalars(old(frame)),
        final(frame).funcs() == old(frame).funcs(),
        final(frame).starts() == old(frame).starts(),
        final(frame).conds() == old(frame).conds(),
{
    match step {
        ArgStep::NoValue => BindOutcome::Exit,
        ArgStep::Panics => BindOutcome::Panics,
        ArgStep::Bind { value: _, name } => match value {
            None => BindOutcome::Exit,
            Some(v) => match name {
                None => BindOutcome::Panics,
                Some(n) => {
                    frame.store_value(n.as_str(), v, unused);
                    BindOutcome::Bound
                },
            },
        },
    }
}

/// Whether `s` is how an argument is read from the call `call`, from token
/// `start` on, for parameter token `param`.
#[verifier::opaque]
pub open spec fn arg_step_ok(
    call: Seq<Seq<char>>,
    start: int,
    param: Option<Seq<char>>,
    s: ArgStep,
) -> bool {
    if call.len() == 1 {
        s is NoValue
    } else if start >= call.len() {
        s is Panics
    } else {
        match s {
            ArgStep::Bind { value, name } => {
                &&& value_plan_ok(call, start, Some(value))
                &&& match param {
                    Some(p) => if name_cut_ok(p) {
                        name matches Some(n) && n@ == p.drop_first()
                    } else {
                        name is None
                    },
                    None => name is None,
                }
            },
            _ => false,
        }
    }
}

/// Where argument `i` of a call starts: after the value of argument `i - 1`,
/// and at token 1 for the first.
pub open spec fn arg_start(steps: Seq<ArgStep>, i: int) -> int {
    if i == 0 {
        1
    } else {
        match steps[i - 1] {
            ArgStep::Bind { value, name } => value.end(),
            _ => 0,
        }
    }
}

/// Whether a step binds a value to a named parameter.
pub open spec fn binds(s: ArgStep) -> bool {
    s matches ArgStep::Bind { value, name } && name is Some
}

/// The parameter token `i` of a procedure, if it has one.
pub open spec fn param_token(params: Seq<Seq<char>>, i: int) -> Option<Seq<char>> {
    if 0 <= i < params.len() {
        Some(params[i])
    } else {
        None
    }
}

proof fn lemma_arg_start_push(s: Seq<ArgStep>, x: ArgStep, i: int)
    requires
        0 <= i <= s.len(),
    ensures
        arg_start(s.push(x), i) == arg_start(s, i),
{
    if i > 0 {
        assert(s.push(x)[i - 1] == s[i - 1]);
    }
}

/// Reads one argument from token `start` on, for parameter token `param`.
fn read_arg(call_line: &[&str], start: usize, param: Option<&str>) -> (s: ArgStep)
    ensures
        arg_step_ok(
            str_views(call_line@),
            start as int,
            match param {
                Some(p) => Some(p@),
                None => None,
            },
            s,
        ),
        s matches ArgStep::Bind { value, name } ==> value.end() <= call_line@.len(),
{
    reveal(arg_step_ok);
    if call_line.len() == 1 {
        return ArgStep::NoValue;
    }
    if start >= call_line.len() {
        return ArgStep::Panics;
    }
    let value = parse_value(call_line, start).unwrap();
    let name = match param {
        Some(p) => match cut_first_char(p) {
            Some(n) => Some(String::from_str(n)),
            None => None,
        },
        None => None,
    };
    ArgStep::Bind { value: value, name: name }
}

/// Whether `r` is how the arguments of a call of `f` are read from the call
/// tokens `call`.
pub open spec fn args_ok(f: Func, call: Seq<Seq<char>>, r: Seq<ArgStep>) -> bool {
    let params = split_spaces(f.argv@);
    let n = if f.num_args < 0 {
        0
    } else {
        f.num_args as int
    };
    &&& r.len() <= n
    &&& forall|i: int|
        0 <= i < r.len() ==> arg_step_ok(call, arg_start(r, i), param_token(params, i), #[trigger] r[i])
    &&& forall|i: int| 0 <= i < r.len() - 1 ==> binds(#[trigger] r[i])
    &&& r.len() < n ==> r.len() > 0 && !binds(r.last())
}

/// How the arguments of a call of `f` are read from the call line
/// `call_line`: each value starts where the previous one ended, and is bound
/// to the next parameter of `f`. The steps stop at the first one that does
/// not bind a value.
pub fn parse_func_arguments(f: &Func, call_line: &[&str]) -> (r: Vec<ArgStep>)
    ensures
        args_ok(*f, str_views(call_line@), r@),
{
    let ghost call = str_views(call_line@);
    let arg_list = split_spaces_of(f.argv.as_str());
    let ghost params = split_spaces(f.argv@);
    let mut steps: Vec<ArgStep> = Vec::new();
    let mut expr_start: usize = 1;
    let mut arg_idx: i32 = 0;
    let call_len = call_line.len();
    while arg_idx < f.num_args
        invariant
            call_len == call_line@.len(),
            call == str_views(call_line@),
            params == str_views(arg_list@),
            params == split_spaces(f.argv@),
            0 <= arg_idx,
            steps@.len() == arg_idx,
            arg_idx <= f.num_args || (f.num_args < 0 && arg_idx == 0),
            expr_start == arg_start(steps@, steps@.len() as int),
            forall|i: int|
                0 <= i < steps@.len() ==> arg_step_ok(
                    call,
                    arg_start(steps@, i),
                    param_token(params, i),
                    #[trigger] steps@[i],
                ),
            forall|i: int| 0 <= i < steps@.len() ==> binds(#[trigger] steps@[i]),
        decreases f.num_args - arg_idx,
    {
        let ghost old_steps = steps@;
        let idx = arg_idx as usize;
        let param = if idx < arg_list.len() {
            Some(arg_list[idx])
        } else {
            None
        };
        proof {
            if idx < arg_list@.len() {
                assert(params[idx as int] == arg_list@[idx as int]@);
            }
            assert(param_token(params, idx as int) == match param {
                Some(p) => Some(p@),
                None => None::<Seq<char>>,
            });
        }
        let step = read_arg(call_line, expr_start, param);
        let (stop, next) = match &step {
            ArgStep::Bind { value, name } => (name.is_none(), value.end_index()),
            _ => (true, 0),
        };
        steps.push(step);
        proof {
            assert forall|i: int| 0 <= i < steps@.len() implies arg_step_ok(
                call,
                arg_start(steps@, i),
                param_token(params, i),
                #[trigger] steps@[i],
            ) by {
                lemma_arg_start_push(old_steps, step, i);
                if i < old_steps.len() {
                    assert(steps@[i] == old_steps[i]);
                }
            }
        }
        if stop {
            proof {
                assert forall|i: int| 0 <= i < steps@.len() - 1 implies binds(#[trigger] steps@[i]) by {
                    assert(steps@[i] == old_steps[i]);
                }
            }
            return steps;
        }
        expr_start = next;
        arg_idx = arg_idx + 1;
        proof {
            assert forall|i: int| 0 <= i < steps@.len() implies binds(#[trigger] steps@[i]) by {
                if i < old_steps.len() {
                    assert(steps@[i] == old_steps[i]);
                }
            }
        }
    }
    steps
}


/// The parameters of a procedure are read back from its definition: the
/// parameter list that `define_procedure` records for a `TO` line with at
/// least one parameter splits into exactly the parameter tokens of that
/// line, so `parse_func_arguments` binds argument `i` to parameter `i`.
pub proof fn law_parameters_read_back(line: Seq<char>)
    requires
        line_tokens(line).len() >= 3,
    ensures
        split_spaces(join_spaces(line_tokens(line).skip(2))) == line_tokens(line).skip(2),
        forall|i: int|
            0 <= i < line_tokens(line).len() - 2 ==> param_token(
                split_spaces(join_spaces(line_tokens(line).skip(2))),
                i,
            ) == Some(#[trigger] line_tokens(line)[i + 2]),
{
    let toks = line_tokens(line);
    let params = toks.skip(2);
    lemma_split_pieces_no_space(trim_start_spec(line));
    assert forall|i: int| 0 <= i < params.len() implies crate::text::no_space(#[trigger] params[i]) by {
        assert(params[i] == toks[i + 2]);
    }
    law_split_undoes_join(params);
}

} // verus!
