//! The shape of arithmetic expressions and of conditions on a line.
//!
//! An expression is written operators first: `+ :X * "2 "3`. Each operator
//! is pushed on a stack; the first operand starts a running value, and
//! every later operand is combined with the running value by the operator
//! on top of the stack, which is then popped. So `+ "1 * "2 "3` is
//! `(1 * 2) + 3`. The expression ends at the operand that empties the stack,
//! or where the tokens run out; running out right after an operator (it
//! has no operand to read) is a panic. This module computes which operand
//! goes with which operator; the numbers themselves are computed by the
//! caller.
use vstd::prelude::*;
use crate::constant::{is_operator_name, is_arithmetic_operator};
use crate::text::{str_eq, str_views};

verus! {

/// How an expression is computed.
#[derive(Debug, PartialEq)]
pub struct ExprPlan {
    /// The token whose value starts the running value (none when there are
    /// no tokens).
    pub first: Option<usize>,
    /// In order, each later operand with the operator that combines it with
    /// the running value: `(operator index, operand index)`.
    pub steps: Vec<(usize, usize)>,
    /// The index after the last token of the expression.
    pub end: usize,
    /// False when the tokens run out right after an operator (reading the
    /// operand there is a panic).
    pub complete: bool,
}

/// The plan of an expression, from token `k` on, given the operators waiting
/// on the stack, the first operand met so far, the steps formed so far, and
/// whether the token before `k` was an operator.
pub open spec fn bystack(
    toks: Seq<Seq<char>>,
    k: int,
    stack: Seq<usize>,
    first: Option<usize>,
    steps: Seq<(usize, usize)>,
    pending: bool,
) -> (Option<usize>, Seq<(usize, usize)>, int, bool)
    decreases toks.len() - k,
{
    if k >= toks.len() {
        (first, steps, k, !pending)
    } else if is_operator_name(toks[k]) {
        bystack(toks, k + 1, stack.push(k as usize), first, steps, true)
    } else {
        let first2 = if first is None {
            Some(k as usize)
        } else {
            first
        };
        let steps2 = if first is None {
            steps
        } else {
            steps.push((stack.last(), k as usize))
        };
        let stack2 = if first is None {
            stack
        } else {
            stack.drop_last()
        };
        if stack2.len() == 0 {
            (first2, steps2, k + 1, true)
        } else {
            bystack(toks, k + 1, stack2, first2, steps2, false)
        }
    }
}

/// The plan of the expression that starts at token `start`.
pub open spec fn expr_plan(toks: Seq<Seq<char>>, start: int) -> (
    Option<usize>,
    Seq<(usize, usize)>,
    int,
    bool,
) {
    bystack(toks, start, Seq::empty(), None, Seq::empty(), false)
}

/// The plan as a value of the spec model.
pub open spec fn plan_view(p: ExprPlan) -> (Option<usize>, Seq<(usize, usize)>, int, bool) {
    (p.first, p.steps@, p.end as int, p.complete)
}

/// Every index of a plan lies among the tokens from `start` on, an operator
/// comes before its operand, and the end lies after them all.
pub open spec fn plan_in_bounds(
    p: (Option<usize>, Seq<(usize, usize)>, int, bool),
    start: int,
    len: int,
) -> bool {
    &&& start <= p.2 <= len || (start > len && p.2 == start)
    &&& p.0 matches Some(f) ==> start <= f < p.2
    &&& forall|j: int|
        0 <= j < p.1.len() ==> start <= #[trigger] p.1[j].0 < p.1[j].1 < p.2
}

proof fn lemma_bystack_bounds(
    toks: Seq<Seq<char>>,
    start: int,
    k: int,
    stack: Seq<usize>,
    first: Option<usize>,
    steps: Seq<(usize, usize)>,
    pending: bool,
)
    requires
        0 <= start <= k,
        toks.len() <= usize::MAX,
        k <= usize::MAX,
        k <= toks.len() || (k == start),
        forall|j: int| 0 <= j < stack.len() ==> start <= #[trigger] stack[j] < k,
        first matches Some(f) ==> start <= f < k,
        first is Some ==> stack.len() > 0,
        forall|j: int| 0 <= j < steps.len() ==> start <= #[trigger] steps[j].0 < steps[j].1 < k,
    ensures
        plan_in_bounds(bystack(toks, k, stack, first, steps, pending), start, toks.len() as int),
    decreases toks.len() - k,
{
    if k >= toks.len() {
    } else if is_operator_name(toks[k]) {
        lemma_bystack_bounds(toks, start, k + 1, stack.push(k as usize), first, steps, true);
    } else {
        if first is None {
            if stack.len() != 0 {
                lemma_bystack_bounds(toks, start, k + 1, stack, Some(k as usize), steps, false);
            }
        } else {
            let steps2 = steps.push((stack.last(), k as usize));
            let stack2 = stack.drop_last();
            if stack.len() > 0 {
                assert(start <= stack[stack.len() - 1] < k);
            }
            assert forall|j: int| 0 <= j < steps2.len() implies start <= #[trigger] steps2[j].0
                < steps2[j].1 < k + 1 by {
                if j < steps.len() {
                    assert(steps2[j] == steps[j]);
                }
            }
            assert forall|j: int| 0 <= j < stack2.len() implies start <= #[trigger] stack2[j] < k
                + 1 by {
                assert(stack2[j] == stack[j]);
            }
            if stack2.len() != 0 {
                lemma_bystack_bounds(toks, start, k + 1, stack2, first, steps2, false);
            }
        }
    }
}

/// An expression that starts at an operator ends after it.
pub proof fn lemma_expr_plan_advances(t: Seq<Seq<char>>, start: int)
    requires
        0 <= start < t.len(),
        t.len() <= usize::MAX,
        is_operator_name(t[start]),
    ensures
        expr_plan(t, start).2 > start,
{
    lemma_bystack_after(t, start + 1, Seq::<usize>::empty().push(start as usize), None, Seq::empty(), true, start);
}

proof fn lemma_bystack_after(
    toks: Seq<Seq<char>>,
    k: int,
    stack: Seq<usize>,
    first: Option<usize>,
    steps: Seq<(usize, usize)>,
    pending: bool,
    start: int,
)
    requires
        start < k,
    ensures
        bystack(toks, k, stack, first, steps, pending).2 > start,
    decreases toks.len() - k,
{
    if k < toks.len() {
        if is_operator_name(toks[k]) {
            lemma_bystack_after(toks, k + 1, stack.push(k as usize), first, steps, true, start);
        } else {
            let first2 = if first is None { Some(k as usize) } else { first };
            let steps2 = if first is None { steps } else { steps.push((stack.last(), k as usize)) };
            let stack2 = if first is None { stack } else { stack.drop_last() };
            if stack2.len() != 0 {
                lemma_bystack_after(toks, k + 1, stack2, first2, steps2, false, start);
            }
        }
    }
}

/// The number of operator tokens among `toks[a..b]`.
pub open spec fn operator_count(toks: Seq<Seq<char>>, a: int, b: int) -> int
    decreases b - a,
{
    if b <= a {
        0
    } else {
        operator_count(toks, a, b - 1) + if is_operator_name(toks[b - 1]) {
            1int
        } else {
            0int
        }
    }
}

/// The number of operand tokens (tokens that are not operators) among `toks[a..b]`.
pub open spec fn operand_count(toks: Seq<Seq<char>>, a: int, b: int) -> int
    decreases b - a,
{
    if b <= a {
        0
    } else {
        operand_count(toks, a, b - 1) + if is_operator_name(toks[b - 1]) {
            0int
        } else {
            1int
        }
    }
}

proof fn lemma_counts_nonnegative(toks: Seq<Seq<char>>, a: int, b: int)
    ensures
        operand_count(toks, a, b) >= 0,
        operator_count(toks, a, b) >= 0,
    decreases b - a,
{
    if b > a {
        lemma_counts_nonnegative(toks, a, b - 1);
    }
}

proof fn lemma_bystack_ends_when_balanced(
    toks: Seq<Seq<char>>,
    start: int,
    k: int,
    stack: Seq<usize>,
    first: Option<usize>,
    steps: Seq<(usize, usize)>,
    pending: bool,
)
    requires
        0 <= start < k <= toks.len(),
        (first is None) <==> operand_count(toks, start, k) == 0,
        stack.len() == operator_count(toks, start, k) - if operand_count(toks, start, k) > 0 {
            operand_count(toks, start, k) - 1
        } else {
            0
        },
        stack.len() > 0,
        forall|j: int| #![trigger operand_count(toks, start, j)]
            start < j <= k ==> operand_count(toks, start, j) <= operator_count(toks, start, j),
    ensures
        ({
            let e = bystack(toks, k, stack, first, steps, pending).2;
            &&& k <= e <= toks.len()
            &&& forall|j: int| #![trigger operand_count(toks, start, j)]
                start < j < e ==> operand_count(toks, start, j) <= operator_count(toks, start, j)
            &&& e < toks.len() ==> operand_count(toks, start, e) == operator_count(toks, start, e) + 1
        }),
    decreases toks.len() - k,
{
    if k < toks.len() {
        let nd = operand_count(toks, start, k + 1);
        let op = operator_count(toks, start, k + 1);
        assert(nd == operand_count(toks, start, k) + if is_operator_name(toks[k]) { 0int } else { 1int });
        assert(op == operator_count(toks, start, k) + if is_operator_name(toks[k]) { 1int } else { 0int });
        if is_operator_name(toks[k]) {
            lemma_bystack_ends_when_balanced(toks, start, k + 1, stack.push(k as usize), first, steps, true);
        } else {
            let first2 = if first is None { Some(k as usize) } else { first };
            let steps2 = if first is None { steps } else { steps.push((stack.last(), k as usize)) };
            let stack2 = if first is None { stack } else { stack.drop_last() };
            let nd0 = operand_count(toks, start, k);
            let op0 = operator_count(toks, start, k);
            lemma_counts_nonnegative(toks, start, k);
            assert(nd == nd0 + 1 && op == op0);
            if first is None {
                assert(nd0 == 0);
                assert(stack2.len() == op - (nd - 1));
            } else {
                assert(nd0 > 0);
                assert(stack2.len() == stack.len() - 1);
                assert(stack2.len() == op - (nd - 1));
            }
            assert(nd <= op + 1);
            if stack2.len() != 0 {
                assert(nd <= op);
                lemma_bystack_ends_when_balanced(toks, start, k + 1, stack2, first2, steps2, false);
            } else {
                assert(bystack(toks, k, stack, first, steps, pending).2 == k + 1);
                assert(nd == op + 1);
            }
        }
    }
}

/// An expression that starts at an operator ends at the operand that
/// empties its operator stack: up to its end, no prefix of it holds more
/// operands than operators; where it ends before the last token, it holds
/// exactly one operand more than operators (each operator has its two
/// operands, the first shared as the running value). Nothing after that
/// operand belongs to it, whatever token follows.
pub proof fn law_expression_ends_when_operators_are_used(toks: Seq<Seq<char>>, start: int)
    requires
        0 <= start < toks.len(),
        is_operator_name(toks[start]),
    ensures
        ({
            let e = expr_plan(toks, start).2;
            &&& start < e <= toks.len()
            &&& forall|j: int| #![trigger operand_count(toks, start, j)]
                start < j < e ==> operand_count(toks, start, j) <= operator_count(toks, start, j)
            &&& e < toks.len() ==> operand_count(toks, start, e) == operator_count(toks, start, e) + 1
        }),
{
    assert(operand_count(toks, start, start) == 0);
    assert(operator_count(toks, start, start) == 0);
    assert(operand_count(toks, start, start + 1) == 0);
    assert(operator_count(toks, start, start + 1) == 1);
    assert(expr_plan(toks, start) == bystack(toks, start + 1, Seq::<usize>::empty().push(start as usize), None, Seq::empty(), true));
    lemma_bystack_ends_when_balanced(
        toks,
        start,
        start + 1,
        Seq::<usize>::empty().push(start as usize),
        None,
        Seq::empty(),
        true,
    );
}

/// Works out how the expression that starts at `cmd_line[start_idx]` is
/// computed: which token starts the running value, which operand each
/// operator combines with it, and where the expression ends.
pub fn calculate_bystack(cmd_line: &[&str], start_idx: usize) -> (r: ExprPlan)
    ensures
        plan_view(r) == expr_plan(str_views(cmd_line@), start_idx as int),
        plan_in_bounds(plan_view(r), start_idx as int, cmd_line@.len() as int),
{
    let ghost toks = str_views(cmd_line@);
    let mut stack: Vec<usize> = Vec::new();
    let mut steps: Vec<(usize, usize)> = Vec::new();
    let mut first: Option<usize> = None;
    let mut pending = false;
    let mut k = start_idx;
    let len = cmd_line.len();
    proof {
        lemma_bystack_bounds(toks, start_idx as int, start_idx as int, stack@, first, steps@, pending);
    }
    while k < len
        invariant
            len == cmd_line@.len(),
            toks == str_views(cmd_line@),
            start_idx <= k,
            k <= cmd_line@.len() || k == start_idx,
            expr_plan(toks, start_idx as int) == bystack(toks, k as int, stack@, first, steps@, pending),
            plan_in_bounds(expr_plan(toks, start_idx as int), start_idx as int, cmd_line@.len() as int),
            first is Some ==> stack@.len() > 0,
        decreases cmd_line@.len() - k,
    {
        if is_arithmetic_operator(cmd_line[k]) {
            stack.push(k);
            pending = true;
            k = k + 1;
        } else {
            if first.is_none() {
                first = Some(k);
            } else {
                let top = stack.pop().unwrap();
                steps.push((top, k));
            }
            pending = false;
            if stack.len() == 0 {
                proof {
                    assert(stack@ =~= Seq::<usize>::empty());
                }
                return ExprPlan { first: first, steps: steps, end: k + 1, complete: true };
            }
            k = k + 1;
        }
    }
    ExprPlan { first: first, steps: steps, end: k, complete: !pending }
}

/// Whether a token is one of the comparison words `EQ`, `NE`, `GT`, `LT`.
pub open spec fn is_comparison_word(s: Seq<char>) -> bool {
    s == "EQ"@ || s == "NE"@ || s == "GT"@ || s == "LT"@
}

/// Whether a token is a comparison word, for tokens of the program.
pub fn is_comparison(s: &str) -> (r: bool)
    ensures
        r == is_comparison_word(s@),
{
    str_eq(s, "EQ") || str_eq(s, "NE") || str_eq(s, "GT") || str_eq(s, "LT")
}

/// The index of the second comparison word of a two-part condition: the
/// first comparison word at index 3 or later.
/// `WHILE AND GT XCOR "0 GT YCOR "0` gives 5.
pub fn parse_end_arg(cond_line: Vec<&str>) -> (r: Option<usize>)
    ensures
        r matches Some(i) ==> 3 <= i < cond_line@.len() && is_comparison_word(cond_line@[i as int]@)
            && forall|j: int| 3 <= j < i ==> !is_comparison_word(#[trigger] cond_line@[j]@),
        r is None ==> forall|j: int|
            3 <= j < cond_line@.len() ==> !is_comparison_word(#[trigger] cond_line@[j]@),
{
    let mut i: usize = 3;
    while i < cond_line.len()
        invariant
            3 <= i,
            forall|j: int| 3 <= j < i && j < cond_line@.len() ==> !is_comparison_word(
                #[trigger] cond_line@[j]@,
            ),
        decreases cond_line@.len() - i,
    {
        if is_comparison(cond_line[i]) {
            return Some(i);
        }
        i = i + 1;
    }
    None
}

} // verus!
