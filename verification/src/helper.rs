//! Values, blocks and conditions of a line: how a value is read from the
//! tokens, which `WHILE`/`IF` each `]` closes, and how the comparisons of a
//! condition are decided.
use vstd::prelude::*;
use crate::compute::{ExprPlan, bystack, calculate_bystack, expr_plan, plan_view, lemma_expr_plan_advances,
    is_comparison, is_comparison_word, parse_end_arg};
use crate::constant::{VarMapValue, Condition, is_operator_name, is_arithmetic_operator, is_comment,
    is_comment_spec, IS_WHILE, IS_IF, IS_CLOSE};
use crate::text::{str_eq, str_views, string_views, trim_start, trim_start_spec, split_spaces_of, line_tokens, lemma_split_nonempty};
use crate::turtle::{Turtle, QueryValue};

verus! {

/// How a value is read from the tokens of a line.
#[derive(Debug, PartialEq)]
pub enum ValuePlan {
    /// A single token (a query word, a `:variable` or a `"literal`).
    Operand(usize),
    /// An arithmetic expression.
    Expression(ExprPlan),
}

impl ValuePlan {
    /// The index after the last token of the value.
    pub open spec fn end(self) -> int {
        match self {
            ValuePlan::Operand(i) => i + 1,
            ValuePlan::Expression(p) => p.end as int,
        }
    }

    /// The index after the last token of the value.
    pub fn end_index(&self) -> (r: usize)
        requires
            self.end() <= usize::MAX,
        ensures
            r == self.end(),
    {
        match self {
            ValuePlan::Operand(i) => *i + 1,
            ValuePlan::Expression(p) => p.end,
        }
    }
}

/// What `parse_value` gives: nothing when the line is the command word
/// alone; an expression when the token is an operator; else that token.
pub open spec fn value_plan_ok(params: Seq<Seq<char>>, start: int, r: Option<ValuePlan>) -> bool {
    if params.len() == 1 {
        r is None
    } else if is_operator_name(params[start]) {
        r matches Some(ValuePlan::Expression(p)) && plan_view(p) == expr_plan(params, start)
    } else {
        r == Some(ValuePlan::Operand(start as usize))
    }
}

/// How the value that starts at `params[start_idx]` is read. The command
/// word alone (a one-token line) has no value.
pub fn parse_value(params: &[&str], start_idx: usize) -> (r: Option<ValuePlan>)
    requires
        params@.len() == 1 || start_idx < params@.len(),
    ensures
        value_plan_ok(str_views(params@), start_idx as int, r),
        r matches Some(p) ==> start_idx < p.end() <= params@.len(),
{
    if params.len() == 1 {
        return None;
    }
    if is_arithmetic_operator(params[start_idx]) {
        let p = calculate_bystack(params, start_idx);
        proof {
            let t = str_views(params@);
            assert(t[start_idx as int] == params@[start_idx as int]@);
            lemma_expr_plan_advances(t, start_idx as int);
        }
        Some(ValuePlan::Expression(p))
    } else {
        Some(ValuePlan::Operand(start_idx))
    }
}

// ----- blocks -----

/// Whether a line is skipped: blank after its leading whitespace, or a comment.
pub open spec fn is_skipped_line(s: Seq<char>) -> bool {
    trim_start_spec(s).len() == 0 || is_comment_spec(trim_start_spec(s))
}

/// The first token of a line.
pub open spec fn first_token(s: Seq<char>) -> Seq<char> {
    line_tokens(s)[0]
}

/// Whether a (not skipped) line opens a block.
pub open spec fn opens_block(s: Seq<char>) -> bool {
    !is_skipped_line(s) && (first_token(s) == IS_WHILE@ || first_token(s) == IS_IF@)
}

/// Whether a (not skipped) line closes a block.
pub open spec fn closes_block(s: Seq<char>) -> bool {
    !is_skipped_line(s) && first_token(s) == IS_CLOSE@
}

/// The first comparison word at index `i` or later.
pub open spec fn end_arg_from(toks: Seq<Seq<char>>, i: int) -> Option<int>
    decreases toks.len() - i,
{
    if i >= toks.len() || i < 0 {
        None
    } else if is_comparison_word(toks[i]) {
        Some(i)
    } else {
        end_arg_from(toks, i + 1)
    }
}

/// The two comparisons of a condition line, as `add_controlflow` records
/// them: for `AND`/`OR` the first starts at token 2 and the second at the
/// next comparison word from token 3 on; for a single comparison it starts
/// at token 1 and the second always holds.
pub open spec fn condition_pair(toks: Seq<Seq<char>>) -> Option<(Condition, Condition)> {
    if toks[1] == "AND"@ || toks[1] == "OR"@ {
        match end_arg_from(toks, 3) {
            Some(e) => Some(
                (
                    Condition { assigned_true: false, cond_start: 2 },
                    Condition { assigned_true: false, cond_start: e as usize },
                ),
            ),
            None => None,
        }
    } else if is_comparison_word(toks[1]) {
        Some(
            (
                Condition { assigned_true: false, cond_start: 1 },
                Condition { assigned_true: true, cond_start: 2 },
            ),
        )
    } else {
        None
    }
}

/// How a scan for blocks ends.
#[derive(Debug, PartialEq, Eq, Structural)]
pub enum ScanOutcome {
    /// Every block is closed.
    Balanced,
    /// A `]` without a block, an unclosed block, or a condition that is not
    /// well formed.
    Invalid,
    /// A block's opening line is the command word alone: reading its
    /// connective indexes past the tokens, a panic.
    Panics,
}

/// Scanning `lines` from line `k` with the given blocks still open: how the
/// scan ends, and the blocks it closes, in order, as
/// `(closing line, opening line, comparisons)`.
pub open spec fn scan_blocks(lines: Seq<Seq<char>>, k: int, stack: Seq<usize>) -> (
    ScanOutcome,
    Seq<(usize, usize, (Condition, Condition))>,
)
    decreases lines.len() - k,
{
    if k >= lines.len() || k < 0 {
        (
            if stack.len() == 0 {
                ScanOutcome::Balanced
            } else {
                ScanOutcome::Invalid
            },
            Seq::empty(),
        )
    } else if opens_block(lines[k]) {
        scan_blocks(lines, k + 1, stack.push(k as usize))
    } else if closes_block(lines[k]) {
        if stack.len() == 0 {
            (ScanOutcome::Invalid, Seq::empty())
        } else {
            let s = stack.last();
            let toks = line_tokens(lines[s as int]);
            if toks.len() < 2 {
                (ScanOutcome::Panics, Seq::empty())
            } else {
                match condition_pair(toks) {
                    None => (ScanOutcome::Invalid, Seq::empty()),
                    Some(c) => {
                        let rest = scan_blocks(lines, k + 1, stack.drop_last());
                        (rest.0, seq![(k as usize, s, c)] + rest.1)
                    },
                }
            }
        }
    } else {
        scan_blocks(lines, k + 1, stack)
    }
}

/// The block starts after recording the given blocks, in order.
pub open spec fn starts_after(
    m: Map<usize, usize>,
    blocks: Seq<(usize, usize, (Condition, Condition))>,
) -> Map<usize, usize>
    decreases blocks.len(),
{
    if blocks.len() == 0 {
        m
    } else {
        starts_after(m, blocks.drop_last()).insert(blocks.last().0, blocks.last().1)
    }
}

/// The recorded comparisons after recording the given blocks, in order.
pub open spec fn conds_after(
    m: Map<usize, (Condition, Condition)>,
    blocks: Seq<(usize, usize, (Condition, Condition))>,
) -> Map<usize, (Condition, Condition)>
    decreases blocks.len(),
{
    if blocks.len() == 0 {
        m
    } else {
        conds_after(m, blocks.drop_last()).insert(blocks.last().1, blocks.last().2)
    }
}

/// The comparisons of a block's opening line.
fn condition_pair_of(cond_line: Vec<&str>) -> (r: Option<(Condition, Condition)>)
    requires
        cond_line@.len() >= 2,
    ensures
        r == condition_pair(str_views(cond_line@)),
{
    let ghost t = str_views(cond_line@);
    proof {
        assert(t[1] == cond_line@[1]@);
    }
    let mut cond_1 = Condition { assigned_true: false, cond_start: 2 };
    let mut cond_2 = Condition { assigned_true: false, cond_start: 2 };
    if str_eq(cond_line[1], "AND") || str_eq(cond_line[1], "OR") {
        match parse_end_arg(cond_line) {
            Some(end_index) => {
                proof {
                    lemma_end_arg_first(t, 3, end_index as int);
                }
                cond_2.cond_start = end_index;
            },
            None => {
                proof {
                    lemma_end_arg_none(t, 3);
                }
                return None;
            },
        }
    } else if is_comparison(cond_line[1]) {
        cond_1.cond_start = 1;
        cond_2.assigned_true = true;
    } else {
        return None;
    }
    Some((cond_1, cond_2))
}

proof fn lemma_end_arg_first(t: Seq<Seq<char>>, i: int, e: int)
    requires
        3 <= i <= e < t.len(),
        is_comparison_word(t[e]),
        forall|j: int| i <= j < e ==> !is_comparison_word(#[trigger] t[j]),
    ensures
        end_arg_from(t, i) == Some(e),
    decreases e - i,
{
    if i < e {
        lemma_end_arg_first(t, i + 1, e);
    }
}

proof fn lemma_end_arg_none(t: Seq<Seq<char>>, i: int)
    requires
        3 <= i,
        forall|j: int| i <= j < t.len() ==> !is_comparison_word(#[trigger] t[j]),
    ensures
        end_arg_from(t, i) is None,
    decreases t.len() - i,
{
    if i < t.len() {
        lemma_end_arg_none(t, i + 1);
    }
}

/// What a program line is for the block scan.
enum LineClass {
    Skipped,
    Opens,
    Closes,
    Other,
}

fn classify_line(line: &str) -> (r: LineClass)
    ensures
        r is Skipped <==> is_skipped_line(line@),
        r is Opens <==> opens_block(line@),
        r is Closes <==> closes_block(line@),
{
    let t = trim_start(line);
    if t.unicode_len() == 0 || is_comment(t) {
        return LineClass::Skipped;
    }
    let toks = split_spaces_of(t);
    proof {
        lemma_split_nonempty(t@);
        assert(toks@[0]@ == first_token(line@));
        reveal_strlit("WHILE");
        reveal_strlit("IF");
        reveal_strlit("]");
        assert(IS_WHILE@.len() != IS_CLOSE@.len());
        assert(IS_IF@.len() != IS_CLOSE@.len());
    }
    if str_eq(toks[0], IS_WHILE) || str_eq(toks[0], IS_IF) {
        LineClass::Opens
    } else if str_eq(toks[0], IS_CLOSE) {
        LineClass::Closes
    } else {
        LineClass::Other
    }
}

/// Scans `commands` from line `idx` for blocks: which `WHILE`/`IF` line
/// each `]` closes (the nearest one still open), and the comparisons of
/// each such line.
pub fn scan_controlflow(idx: usize, commands: &Vec<String>) -> (r: (
    ScanOutcome,
    Vec<(usize, usize, (Condition, Condition))>,
))
    ensures
        (r.0, r.1@) == scan_blocks(string_views(commands@), idx as int, Seq::empty()),
{
    let ghost lines = string_views(commands@);
    let mut stack: Vec<usize> = Vec::new();
    let mut blocks: Vec<(usize, usize, (Condition, Condition))> = Vec::new();
    let cmd_len = commands.len();
    let mut k = idx;
    while k < cmd_len
        invariant
            lines == string_views(commands@),
            cmd_len == commands@.len(),
            idx <= k,
            forall|j: int| 0 <= j < stack@.len() ==> #[trigger] stack@[j] < k,
            scan_blocks(lines, idx as int, Seq::empty()).0 == scan_blocks(lines, k as int, stack@).0,
            scan_blocks(lines, idx as int, Seq::empty()).1 == blocks@ + scan_blocks(
                lines,
                k as int,
                stack@,
            ).1,
        decreases cmd_len - k,
    {
        let line = commands[k].as_str();
        proof {
            assert(lines[k as int] == line@);
        }
        match classify_line(line) {
            LineClass::Opens => {
                stack.push(k);
            },
            LineClass::Closes => {
                if stack.len() == 0 {
                    proof {
                        assert(blocks@ + Seq::empty() =~= blocks@);
                    }
                    return (ScanOutcome::Invalid, blocks);
                }
                let start_idx = stack.pop().unwrap();
                let cond_line = crate::text::tokenize(commands[start_idx].as_str());
                proof {
                    assert(lines[start_idx as int] == commands@[start_idx as int]@);
                    assert(str_views(cond_line@).len() == cond_line@.len());
                }
                if cond_line.len() < 2 {
                    proof {
                        assert(blocks@ + Seq::empty() =~= blocks@);
                    }
                    return (ScanOutcome::Panics, blocks);
                }
                match condition_pair_of(cond_line) {
                    None => {
                        proof {
                            assert(blocks@ + Seq::empty() =~= blocks@);
                        }
                        return (ScanOutcome::Invalid, blocks);
                    },
                    Some(c) => {
                        let ghost old_blocks = blocks@;
                        blocks.push((k, start_idx, c));
                        proof {
                            let rest = scan_blocks(lines, k + 1, stack@);
                            assert(old_blocks + (seq![(k, start_idx, c)] + rest.1) =~= blocks@
                                + rest.1);
                        }
                    },
                }
            },
            _ => {},
        }
        k = k + 1;
    }
    proof {
        assert(blocks@ + Seq::empty() =~= blocks@);
    }
    if stack.len() == 0 {
        (ScanOutcome::Balanced, blocks)
    } else {
        (ScanOutcome::Invalid, blocks)
    }
}

/// Makes sure every `WHILE`/`IF` from line `idx` on is closed by a `]`,
/// matching each `]` with the nearest block still open, and records for each
/// block its `]` line and its comparisons. Blocks met before the scan fails
/// stay recorded.
pub fn add_controlflow<N: Copy>(idx: usize, commands: &Vec<String>, turtle: &mut Turtle<N>) -> (r:
    Option<()>)
    requires
        old(turtle).wf(),
        scan_blocks(string_views(commands@), idx as int, Seq::empty()).0 != ScanOutcome::Panics,
    ensures
        ({
            let s = scan_blocks(string_views(commands@), idx as int, Seq::empty());
            &&& r is Some <==> s.0 == ScanOutcome::Balanced
            &&& final(turtle).starts() == starts_after(old(turtle).starts(), s.1)
            &&& final(turtle).conds() == conds_after(old(turtle).conds(), s.1)
        }),
        final(turtle).wf(),
        final(turtle).same_scalars(old(turtle)),
        final(turtle).vars() == old(turtle).vars(),
        final(turtle).funcs() == old(turtle).funcs(),
{
    let (outcome, blocks) = scan_controlflow(idx, commands);
    let mut i: usize = 0;
    while i < blocks.len()
        invariant
            i <= blocks@.len(),
            turtle.wf(),
            turtle.starts() == starts_after(old(turtle).starts(), blocks@.take(i as int)),
            turtle.conds() == conds_after(old(turtle).conds(), blocks@.take(i as int)),
            turtle.same_scalars(old(turtle)),
            turtle.vars() == old(turtle).vars(),
            turtle.funcs() == old(turtle).funcs(),
        decreases blocks@.len() - i,
    {
        let (k, start_idx, c) = blocks[i];
        proof {
            assert(blocks@.take(i + 1).drop_last() =~= blocks@.take(i as int));
        }
        turtle.add_2conditions(start_idx, c.0, c.1);
        turtle.insert_condmap(k, start_idx);
        i = i + 1;
    }
    proof {
        assert(blocks@.take(blocks@.len() as int) =~= blocks@);
    }
    if outcome == ScanOutcome::Balanced {
        Some(())
    } else {
        None
    }
}


proof fn lemma_scan_structure(lines: Seq<Seq<char>>, idx: int, k: int, stack: Seq<usize>)
    requires
        0 <= idx <= k <= lines.len(),
        lines.len() <= usize::MAX,
        forall|a: int, b: int| 0 <= a < b < stack.len() ==> stack[a] < stack[b],
        forall|a: int|
            0 <= a < stack.len() ==> idx <= #[trigger] stack[a] < k && opens_block(
                lines[stack[a] as int],
            ),
        scan_blocks(lines, k, stack).0 == ScanOutcome::Balanced,
    ensures
        ({
            let b = scan_blocks(lines, k, stack).1;
            &&& forall|j: int|
                0 <= j < b.len() ==> k <= (#[trigger] b[j]).0 < lines.len() && closes_block(
                    lines[b[j].0 as int],
                ) && idx <= b[j].1 < b[j].0 && opens_block(lines[b[j].1 as int])
            &&& forall|j1: int, j2: int| 0 <= j1 < j2 < b.len() ==> b[j1].0 < b[j2].0
            &&& forall|j1: int, j2: int| 0 <= j1 < j2 < b.len() ==> b[j1].1 != b[j2].1
            &&& forall|j: int|
                0 <= j < b.len() ==> stack.contains((#[trigger] b[j]).1) || b[j].1 >= k
            &&& forall|a: int|
                #![trigger stack[a]]
                0 <= a < stack.len() ==> exists|j: int| #![trigger b[j]] 0 <= j < b.len() && b[j].1 == stack[a]
            &&& forall|o: int|
                k <= o < lines.len() && opens_block(#[trigger] lines[o]) ==> exists|j: int|
                    0 <= j < b.len() && b[j].1 == o
        }),
    decreases lines.len() - k,
{
    if k >= lines.len() {
        assert(stack.len() == 0);
    } else if opens_block(lines[k]) {
        let st2 = stack.push(k as usize);
        assert forall|a: int| 0 <= a < st2.len() implies idx <= #[trigger] st2[a] < k + 1
            && opens_block(lines[st2[a] as int]) by {
            if a < stack.len() {
                assert(st2[a] == stack[a]);
            }
        }
        assert forall|a: int, b: int| 0 <= a < b < st2.len() implies st2[a] < st2[b] by {
            if b < stack.len() {
                assert(st2[a] == stack[a] && st2[b] == stack[b]);
            } else {
                assert(st2[a] == stack[a]);
            }
        }
        lemma_scan_structure(lines, idx, k + 1, st2);
        let b = scan_blocks(lines, k, stack).1;
        assert(b == scan_blocks(lines, k + 1, st2).1);
        assert forall|j: int| 0 <= j < b.len() implies stack.contains((#[trigger] b[j]).1) || b[j].1
            >= k by {
            if st2.contains(b[j].1) {
                let a = choose|a: int| 0 <= a < st2.len() && st2[a] == b[j].1;
                if a < stack.len() {
                    assert(stack[a] == b[j].1);
                }
            }
        }
        assert forall|a: int| #![trigger stack[a]] 0 <= a < stack.len() implies exists|j: int|
            #![trigger b[j]] 0 <= j < b.len() && b[j].1 == stack[a] by {
            assert(st2[a] == stack[a]);
        }
        assert forall|o: int| k <= o < lines.len() && opens_block(#[trigger] lines[o]) implies exists|
            j: int,
        | 0 <= j < b.len() && b[j].1 == o by {
            if o == k {
                assert(st2[stack.len() as int] == k);
            }
        }
    } else if closes_block(lines[k]) {
        let s = stack.last();
        let toks = line_tokens(lines[s as int]);
        let c = condition_pair(toks)->0;
        let st2 = stack.drop_last();
        assert forall|a: int| 0 <= a < st2.len() implies idx <= #[trigger] st2[a] < k + 1
            && opens_block(lines[st2[a] as int]) by {
            assert(st2[a] == stack[a]);
        }
        assert forall|a: int, b: int| 0 <= a < b < st2.len() implies st2[a] < st2[b] by {
            assert(st2[a] == stack[a] && st2[b] == stack[b]);
        }
        lemma_scan_structure(lines, idx, k + 1, st2);
        let rest = scan_blocks(lines, k + 1, st2).1;
        let b = scan_blocks(lines, k, stack).1;
        let first = (k as usize, s, c);
        assert(b == seq![first] + rest);
        assert(s == stack[stack.len() - 1]);
        assert forall|j: int| 0 <= j < b.len() implies k <= (#[trigger] b[j]).0 < lines.len()
            && closes_block(lines[b[j].0 as int]) && idx <= b[j].1 < b[j].0 && opens_block(
            lines[b[j].1 as int],
        ) by {
            if j > 0 {
                assert(b[j] == rest[j - 1]);
                if st2.contains(rest[j - 1].1) {
                    let a = choose|a: int| 0 <= a < st2.len() && st2[a] == rest[j - 1].1;
                    assert(st2[a] == stack[a]);
                }
            }
        }
        assert forall|j1: int, j2: int| 0 <= j1 < j2 < b.len() implies b[j1].0 < b[j2].0 by {
            assert(b[j2] == rest[j2 - 1]);
            if j1 > 0 {
                assert(b[j1] == rest[j1 - 1]);
            }
        }
        assert forall|j1: int, j2: int| 0 <= j1 < j2 < b.len() implies b[j1].1 != b[j2].1 by {
            assert(b[j2] == rest[j2 - 1]);
            if j1 > 0 {
                assert(b[j1] == rest[j1 - 1]);
            } else {
                if st2.contains(rest[j2 - 1].1) {
                    let a = choose|a: int| 0 <= a < st2.len() && st2[a] == rest[j2 - 1].1;
                    assert(st2[a] == stack[a]);
                    assert(stack[a] < stack[stack.len() - 1]);
                }
            }
        }
        assert forall|j: int| 0 <= j < b.len() implies stack.contains((#[trigger] b[j]).1) || b[j].1
            >= k by {
            if j == 0 {
                assert(stack[stack.len() - 1] == b[0].1);
            } else {
                assert(b[j] == rest[j - 1]);
                if st2.contains(rest[j - 1].1) {
                    let a = choose|a: int| 0 <= a < st2.len() && st2[a] == rest[j - 1].1;
                    assert(stack[a] == rest[j - 1].1);
                }
            }
        }
        assert forall|a: int| #![trigger stack[a]] 0 <= a < stack.len() implies exists|j: int|
            #![trigger b[j]] 0 <= j < b.len() && b[j].1 == stack[a] by {
            if a == stack.len() - 1 {
                assert(b[0].1 == stack[a]);
            } else {
                assert(st2[a] == stack[a]);
                let j = choose|j: int| #![trigger rest[j]] 0 <= j < rest.len() && rest[j].1 == st2[a];
                assert(b[j + 1] == rest[j]);
            }
        }
        assert forall|o: int| k <= o < lines.len() && opens_block(#[trigger] lines[o]) implies exists|
            j: int,
        | 0 <= j < b.len() && b[j].1 == o by {
            assert(o != k);
            let j = choose|j: int| 0 <= j < rest.len() && rest[j].1 == o;
            assert(b[j + 1] == rest[j]);
        }
    } else {
        lemma_scan_structure(lines, idx, k + 1, stack);
    }
}

proof fn lemma_starts_after_blocks(blocks: Seq<(usize, usize, (Condition, Condition))>)
    requires
        forall|j1: int, j2: int| 0 <= j1 < j2 < blocks.len() ==> blocks[j1].0 < blocks[j2].0,
    ensures
        ({
            let m = starts_after(Map::empty(), blocks);
            &&& forall|j: int|
                0 <= j < blocks.len() ==> m.contains_key((#[trigger] blocks[j]).0) && m[blocks[j].0]
                    == blocks[j].1
            &&& forall|c: usize|
                #[trigger] m.contains_key(c) ==> exists|j: int|
                    0 <= j < blocks.len() && blocks[j].0 == c
        }),
    decreases blocks.len(),
{
    if blocks.len() > 0 {
        let b2 = blocks.drop_last();
        lemma_starts_after_blocks(b2);
        let m = starts_after(Map::empty(), blocks);
        assert forall|j: int| 0 <= j < blocks.len() implies m.contains_key((#[trigger] blocks[j]).0)
            && m[blocks[j].0] == blocks[j].1 by {
            if j < blocks.len() - 1 {
                assert(b2[j] == blocks[j]);
            }
        }
        assert forall|c: usize| #[trigger] m.contains_key(c) implies exists|j: int|
            0 <= j < blocks.len() && blocks[j].0 == c by {
            if c != blocks.last().0 {
                assert(starts_after(Map::empty(), b2).contains_key(c));
                let j = choose|j: int| 0 <= j < b2.len() && b2[j].0 == c;
                assert(blocks[j] == b2[j]);
            } else {
                assert(blocks[blocks.len() - 1].0 == c);
            }
        }
    }
}

/// A balanced scan from line `idx` (into empty tables) pairs blocks up: each
/// recorded `]` line closes a `WHILE`/`IF` line before it, no two `]` lines
/// close the same block, and every `WHILE`/`IF` line from `idx` on is closed
/// by one of them. So the `]` of a block is found again from its opening
/// line: `search_end` undoes `get_start_line`.
pub proof fn law_blocks_pair_up(lines: Seq<Seq<char>>, idx: int)
    requires
        0 <= idx <= lines.len(),
        lines.len() <= usize::MAX,
        scan_blocks(lines, idx, Seq::empty()).0 == ScanOutcome::Balanced,
    ensures
        ({
            let m = starts_after(Map::empty(), scan_blocks(lines, idx, Seq::empty()).1);
            &&& forall|c: usize|
                #[trigger] m.contains_key(c) ==> idx <= m[c] < c < lines.len() && closes_block(
                    lines[c as int],
                ) && opens_block(lines[m[c] as int])
            &&& forall|c1: usize, c2: usize|
                #[trigger] m.contains_key(c1) && #[trigger] m.contains_key(c2) && m[c1] == m[c2]
                    ==> c1 == c2
            &&& forall|o: int|
                idx <= o < lines.len() && opens_block(#[trigger] lines[o]) ==> exists|c: usize|
                    #[trigger] m.contains_key(c) && m[c] == o
        }),
{
    let b = scan_blocks(lines, idx, Seq::empty()).1;
    lemma_scan_structure(lines, idx, idx, Seq::empty());
    lemma_starts_after_blocks(b);
    let m = starts_after(Map::empty(), b);
    assert forall|c: usize| #[trigger] m.contains_key(c) implies idx <= m[c] < c < lines.len()
        && closes_block(lines[c as int]) && opens_block(lines[m[c] as int]) by {
        let j = choose|j: int| 0 <= j < b.len() && b[j].0 == c;
        assert(m[b[j].0] == b[j].1);
    }
    assert forall|c1: usize, c2: usize|
        #[trigger] m.contains_key(c1) && #[trigger] m.contains_key(c2) && m[c1] == m[c2] implies c1
        == c2 by {
        let j1 = choose|j: int| 0 <= j < b.len() && b[j].0 == c1;
        let j2 = choose|j: int| 0 <= j < b.len() && b[j].0 == c2;
        assert(m[b[j1].0] == b[j1].1);
        assert(m[b[j2].0] == b[j2].1);
        if j1 < j2 {
            assert(b[j1].1 != b[j2].1);
        } else if j2 < j1 {
            assert(b[j2].1 != b[j1].1);
        }
    }
    assert forall|o: int| idx <= o < lines.len() && opens_block(#[trigger] lines[o]) implies exists|
        c: usize,
    | #[trigger] m.contains_key(c) && m[c] == o by {
        let j = choose|j: int| 0 <= j < b.len() && b[j].1 == o;
        assert(m.contains_key(b[j].0) && m[b[j].0] == b[j].1);
    }
}

// ----- conditions -----

/// A value read from the tokens of a line.
#[derive(Debug, PartialEq)]
pub enum Value<N> {
    Number(N),
    Word(String),
}

/// Whether variable contents `v` are what storing `value` leaves: a number
/// as a number (with no text), a word as a word (with `unused` in the number
/// slot).
pub open spec fn holds_value<N>(v: VarMapValue<N>, value: Value<N>, unused: N) -> bool {
    &&& v.is_f32 == (value is Number)
    &&& match value {
        Value::Number(n) => v.f32_value == n && v.str_value@ == Seq::<char>::empty(),
        Value::Word(w) => v.f32_value == unused && v.str_value@ == w@,
    }
}

/// The number a value stands for inside an arithmetic expression: a word
/// counts as `zero`.
pub fn number_in_expression<N: Copy>(v: &Value<N>, zero: N) -> (r: N)
    ensures
        r == (match *v {
            Value::Number(n) => n,
            Value::Word(_) => zero,
        }),
{
    match v {
        Value::Number(n) => *n,
        Value::Word(_) => zero,
    }
}

/// The number a command (`FORWARD`, `SETX`, `ADDASSIGN`, ...) takes from a
/// value read for it: none, and the program stops, when no value could be
/// read or it is a word.
pub fn number_for_command<N: Copy>(v: &Option<Value<N>>) -> (r: Option<N>)
    ensures
        r == (match *v {
            Some(Value::Number(n)) => Some(n),
            _ => None::<N>,
        }),
{
    match v {
        Some(Value::Number(n)) => Some(*n),
        _ => None,
    }
}

/// How two numbers compare (`Unordered` when one of them is not a number
/// at all, such as a NaN).
#[derive(Debug, PartialEq, Eq, Structural, Clone, Copy)]
pub enum NumOrder {
    Less,
    Equal,
    Greater,
    Unordered,
}

/// The outcome of comparison word `op` on two values, given whether each is
/// a number, whether two words are equal, and how two numbers compare.
/// Values of different kinds are never equal: `NE` holds and `EQ`, `GT`,
/// `LT` do not. Words are only equal or not: `GT` and `LT` never hold.
pub open spec fn comparison_outcome(
    op: Seq<char>,
    lhs_num: bool,
    rhs_num: bool,
    words_equal: bool,
    order: NumOrder,
) -> Option<bool> {
    if op == "EQ"@ {
        Some(
            if lhs_num && rhs_num {
                order == NumOrder::Equal
            } else if !lhs_num && !rhs_num {
                words_equal
            } else {
                false
            },
        )
    } else if op == "GT"@ {
        Some(lhs_num && rhs_num && order == NumOrder::Greater)
    } else if op == "LT"@ {
        Some(lhs_num && rhs_num && order == NumOrder::Less)
    } else if op == "NE"@ {
        Some(
            if lhs_num && rhs_num {
                order != NumOrder::Equal
            } else if !lhs_num && !rhs_num {
                !words_equal
            } else {
                true
            },
        )
    } else {
        None
    }
}

/// Whether two values are words with the same characters.
pub open spec fn same_words<N>(lhs: Value<N>, rhs: Value<N>) -> bool {
    match (lhs, rhs) {
        (Value::Word(a), Value::Word(b)) => a@ == b@,
        _ => false,
    }
}

/// Decides comparison word `op` on two values; `order` is how the two
/// values compare when both are numbers. `None` when `op` is not a
/// comparison word.
pub fn compare_values<N>(op: &str, lhs: &Value<N>, rhs: &Value<N>, order: NumOrder) -> (r: Option<
    bool,
>)
    ensures
        r == comparison_outcome(
            op@,
            lhs is Number,
            rhs is Number,
            same_words(*lhs, *rhs),
            order,
        ),
{
    let lhs_num = match lhs {
        Value::Number(_) => true,
        Value::Word(_) => false,
    };
    let rhs_num = match rhs {
        Value::Number(_) => true,
        Value::Word(_) => false,
    };
    let words_equal = match (lhs, rhs) {
        (Value::Word(a), Value::Word(b)) => str_eq(a.as_str(), b.as_str()),
        _ => false,
    };
    if str_eq(op, "EQ") {
        Some(
            if lhs_num && rhs_num {
                order == NumOrder::Equal
            } else if !lhs_num && !rhs_num {
                words_equal
            } else {
                false
            },
        )
    } else if str_eq(op, "GT") {
        Some(lhs_num && rhs_num && order == NumOrder::Greater)
    } else if str_eq(op, "LT") {
        Some(lhs_num && rhs_num && order == NumOrder::Less)
    } else if str_eq(op, "NE") {
        Some(
            if lhs_num && rhs_num {
                order != NumOrder::Equal
            } else if !lhs_num && !rhs_num {
                !words_equal
            } else {
                true
            },
        )
    } else {
        None
    }
}

/// A comparison of a mixed kind (a number against a word) only ever
/// holds for `NE`: `EQ`, `GT` and `LT` are false and `NE` is true.
pub proof fn law_mixed_comparison(op: Seq<char>, lhs_num: bool, words_equal: bool, order: NumOrder)
    requires
        is_comparison_word(op),
    ensures
        comparison_outcome(op, lhs_num, !lhs_num, words_equal, order) == Some(op == "NE"@),
{
    reveal_strlit("EQ");
    reveal_strlit("NE");
    reveal_strlit("GT");
    reveal_strlit("LT");
    assert("EQ"@[0] != "NE"@[0]);
    assert("GT"@[0] != "NE"@[0]);
    assert("LT"@[0] != "NE"@[0]);
}

/// How two numbers compare when taken the other way round.
pub open spec fn reversed_order(order: NumOrder) -> NumOrder {
    match order {
        NumOrder::Less => NumOrder::Greater,
        NumOrder::Greater => NumOrder::Less,
        NumOrder::Equal => NumOrder::Equal,
        NumOrder::Unordered => NumOrder::Unordered,
    }
}

/// `NE` is the negation of `EQ`, for two numbers, two words, or a number
/// and a word.
pub proof fn law_ne_negates_eq(lhs_num: bool, rhs_num: bool, words_equal: bool, order: NumOrder)
    ensures
        comparison_outcome("NE"@, lhs_num, rhs_num, words_equal, order) == Some(
            !comparison_outcome("EQ"@, lhs_num, rhs_num, words_equal, order).unwrap(),
        ),
        comparison_outcome("EQ"@, lhs_num, rhs_num, words_equal, order) is Some,
{
    reveal_strlit("EQ");
    reveal_strlit("NE");
    reveal_strlit("GT");
    reveal_strlit("LT");
    assert("EQ"@ != "NE"@) by {
        assert("EQ"@[0] != "NE"@[0]);
    }
    assert("GT"@ != "NE"@) by {
        assert("GT"@[0] != "NE"@[0]);
    }
    assert("LT"@ != "NE"@) by {
        assert("LT"@[0] != "NE"@[0]);
    }
}

/// `GT a b` holds exactly when `LT b a` holds, and both are false unless
/// both values are numbers.
pub proof fn law_gt_is_lt_swapped(lhs_num: bool, rhs_num: bool, words_equal: bool, order: NumOrder)
    ensures
        comparison_outcome("GT"@, lhs_num, rhs_num, words_equal, order) == comparison_outcome(
            "LT"@,
            rhs_num,
            lhs_num,
            words_equal,
            reversed_order(order),
        ),
        comparison_outcome("GT"@, lhs_num, rhs_num, words_equal, order) == Some(lhs_num && rhs_num
            && order == NumOrder::Greater),
{
    reveal_strlit("EQ");
    reveal_strlit("GT");
    reveal_strlit("LT");
    assert("EQ"@ != "GT"@) by {
        assert("EQ"@[0] != "GT"@[0]);
    }
    assert("EQ"@ != "LT"@) by {
        assert("EQ"@[0] != "LT"@[0]);
    }
    assert("GT"@ != "LT"@) by {
        assert("GT"@[0] != "LT"@[0]);
    }
}

/// How comparisons decide two numbers that compare by `order`: `EQ` holds
/// exactly when they are equal (a smaller or larger number is not equal),
/// `NE` exactly when they are not, `GT` when the first is larger and `LT`
/// when it is smaller. For two ordered numbers exactly one of `EQ`, `GT`,
/// `LT` holds, and taking the numbers the other way round keeps `EQ` and
/// `NE` and exchanges `GT` with `LT`.
pub proof fn law_number_comparisons(order: NumOrder, words_equal: bool)
    ensures
        comparison_outcome("EQ"@, true, true, words_equal, order) == Some(order == NumOrder::Equal),
        comparison_outcome("NE"@, true, true, words_equal, order) == Some(order != NumOrder::Equal),
        comparison_outcome("GT"@, true, true, words_equal, order) == Some(order == NumOrder::Greater),
        comparison_outcome("LT"@, true, true, words_equal, order) == Some(order == NumOrder::Less),
        order == NumOrder::Less ==> comparison_outcome("EQ"@, true, true, words_equal, order)
            == Some(false),
        order == NumOrder::Greater ==> comparison_outcome("EQ"@, true, true, words_equal, order)
            == Some(false),
        order != NumOrder::Unordered ==> {
            let eq = comparison_outcome("EQ"@, true, true, words_equal, order).unwrap();
            let gt = comparison_outcome("GT"@, true, true, words_equal, order).unwrap();
            let lt = comparison_outcome("LT"@, true, true, words_equal, order).unwrap();
            (eq || gt || lt) && !(eq && gt) && !(eq && lt) && !(gt && lt)
        },
        comparison_outcome("EQ"@, true, true, words_equal, order) == comparison_outcome(
            "EQ"@,
            true,
            true,
            words_equal,
            reversed_order(order),
        ),
        comparison_outcome("NE"@, true, true, words_equal, order) == comparison_outcome(
            "NE"@,
            true,
            true,
            words_equal,
            reversed_order(order),
        ),
        comparison_outcome("GT"@, true, true, words_equal, order) == comparison_outcome(
            "LT"@,
            true,
            true,
            words_equal,
            reversed_order(order),
        ),
{
    reveal_strlit("EQ");
    reveal_strlit("NE");
    reveal_strlit("GT");
    reveal_strlit("LT");
    assert("EQ"@ != "NE"@) by {
        assert("EQ"@[0] != "NE"@[0]);
    }
    assert("EQ"@ != "GT"@) by {
        assert("EQ"@[0] != "GT"@[0]);
    }
    assert("EQ"@ != "LT"@) by {
        assert("EQ"@[0] != "LT"@[0]);
    }
    assert("GT"@ != "LT"@) by {
        assert("GT"@[0] != "LT"@[0]);
    }
    assert("GT"@ != "NE"@) by {
        assert("GT"@[0] != "NE"@[0]);
    }
    assert("LT"@ != "NE"@) by {
        assert("LT"@[0] != "NE"@[0]);
    }
}

/// How a condition's two outcomes combine, by the connective `connect`
/// (the token after `WHILE`/`IF`).
pub open spec fn combined_outcome(connect: Seq<char>, cond1: bool, cond2: bool) -> Option<bool> {
    if connect == "AND"@ {
        Some(cond1 && cond2)
    } else if connect == "OR"@ {
        Some(cond1 || cond2)
    } else if connect == "GT"@ || connect == "LT"@ || connect == "NE"@ || connect == "EQ"@ {
        Some(cond1)
    } else {
        None
    }
}

/// The connectives: `AND` holds exactly when both comparisons hold (a
/// false comparison on either side makes it false), `OR` when at least one
/// does; both take their comparisons in either order, and `AND` holding
/// means `OR` holds.
pub proof fn law_connectives(c1: bool, c2: bool)
    ensures
        combined_outcome("AND"@, c1, c2) == Some(c1 && c2),
        combined_outcome("OR"@, c1, c2) == Some(c1 || c2),
        !c1 ==> combined_outcome("AND"@, c1, c2) == Some(false),
        !c2 ==> combined_outcome("AND"@, c1, c2) == Some(false),
        c1 ==> combined_outcome("OR"@, c1, c2) == Some(true),
        c2 ==> combined_outcome("OR"@, c1, c2) == Some(true),
        combined_outcome("AND"@, c1, c2) == combined_outcome("AND"@, c2, c1),
        combined_outcome("OR"@, c1, c2) == combined_outcome("OR"@, c2, c1),
        combined_outcome("AND"@, c1, c2) == Some(true) ==> combined_outcome("OR"@, c1, c2) == Some(
            true,
        ),
{
    reveal_strlit("AND");
    reveal_strlit("OR");
    assert("AND"@ != "OR"@) by {
        assert("AND"@.len() != "OR"@.len());
    }
}

/// Combines the outcomes of a condition's two comparisons: both for `AND`,
/// either for `OR`, the first alone for a single comparison.
pub fn combine_conditions(connect: &str, cond1: bool, cond2: bool) -> (r: Option<bool>)
    ensures
        r == combined_outcome(connect@, cond1, cond2),
{
    if str_eq(connect, "AND") {
        Some(cond1 && cond2)
    } else if str_eq(connect, "OR") {
        Some(cond1 || cond2)
    } else if str_eq(connect, "GT") || str_eq(connect, "LT") || str_eq(connect, "NE") || str_eq(
        connect,
        "EQ",
    ) {
        Some(cond1)
    } else {
        None
    }
}

/// How one comparison of a condition is evaluated.
#[derive(Debug, PartialEq)]
pub enum ComparisonPlan {
    /// It holds whatever the line says.
    AlwaysTrue,
    /// The line is the command word alone: there is no value to read (`None`).
    NoValue,
    /// Reading its left-hand value indexes past the tokens: a panic.
    Panics,
    /// Compare the value read by `lhs` with the value read by `rhs`, by the
    /// comparison word at `op`. `rhs` is `None` when reading it indexes past
    /// the tokens, a panic once the left-hand value has been read.
    Compare { op: usize, lhs: ValuePlan, rhs: Option<ValuePlan> },
}

/// What `evaluate_cond` reads for comparison `cond` of line `params`.
pub open spec fn comparison_plan_ok(cond: Condition, params: Seq<Seq<char>>, r: ComparisonPlan) -> bool {
    let ls = cond.cond_start + 1;
    if cond.assigned_true {
        r is AlwaysTrue
    } else if params.len() == 1 {
        r is NoValue
    } else if ls >= params.len() {
        r is Panics
    } else {
        match r {
            ComparisonPlan::Compare { op, lhs, rhs } => {
                &&& op == cond.cond_start
                &&& value_plan_ok(params, ls, Some(lhs))
                &&& if lhs.end() >= params.len() {
                    rhs is None
                } else {
                    rhs is Some && value_plan_ok(params, lhs.end(), rhs)
                }
            },
            _ => false,
        }
    }
}

/// How comparison `cond` of the condition line `params` is evaluated: its
/// left-hand value starts after the comparison word and its right-hand
/// value right after the left-hand one.
pub fn evaluate_cond(cond: &Condition, params: &[&str]) -> (r: ComparisonPlan)
    ensures
        comparison_plan_ok(*cond, str_views(params@), r),
        r matches ComparisonPlan::Compare { op, lhs, rhs } ==> op < params@.len() && (rhs matches Some(
            p,
        ) ==> p.end() <= params@.len()),
{
    if cond.assigned_true {
        return ComparisonPlan::AlwaysTrue;
    }
    if params.len() == 1 {
        return ComparisonPlan::NoValue;
    }
    if params.len() == 0 || cond.cond_start >= params.len() - 1 {
        return ComparisonPlan::Panics;
    }
    let lhs = parse_value(params, 1 + cond.cond_start).unwrap();
    let rhs_start = lhs.end_index();
    if rhs_start >= params.len() {
        return ComparisonPlan::Compare { op: cond.cond_start, lhs: lhs, rhs: None };
    }
    let rhs = parse_value(params, rhs_start);
    ComparisonPlan::Compare { op: cond.cond_start, lhs: lhs, rhs: rhs }
}

proof fn lemma_bystack_same_tail(
    t1: Seq<Seq<char>>,
    t2: Seq<Seq<char>>,
    k: int,
    stack: Seq<usize>,
    first: Option<usize>,
    steps: Seq<(usize, usize)>,
    pending: bool,
)
    requires
        t1.len() == t2.len(),
        forall|j: int| k <= j < t1.len() ==> t1[j] == t2[j],
    ensures
        bystack(t1, k, stack, first, steps, pending) == bystack(t2, k, stack, first, steps, pending),
    decreases t1.len() - k,
{
    if k < t1.len() {
        assert(t1[k] == t2[k]);
        if is_operator_name(t1[k]) {
            lemma_bystack_same_tail(t1, t2, k + 1, stack.push(k as usize), first, steps, true);
        } else {
            let first2 = if first is None { Some(k as usize) } else { first };
            let steps2 = if first is None { steps } else { steps.push((stack.last(), k as usize)) };
            let stack2 = if first is None { stack } else { stack.drop_last() };
            lemma_bystack_same_tail(t1, t2, k + 1, stack2, first2, steps2, false);
        }
    }
}

/// Two lines that agree from token `start` on read the same value there.
proof fn lemma_value_plan_same_tail(t1: Seq<Seq<char>>, t2: Seq<Seq<char>>, start: int, r: Option<ValuePlan>)
    requires
        t1.len() == t2.len(),
        0 <= start < t1.len(),
        forall|j: int| start <= j < t1.len() ==> t1[j] == t2[j],
        value_plan_ok(t1, start, r),
    ensures
        value_plan_ok(t2, start, r),
{
    assert(t1[start] == t2[start]);
    lemma_bystack_same_tail(t1, t2, start, Seq::empty(), None, Seq::empty(), false);
}

/// `NE` negates `EQ` over whole condition lines: where two lines differ only
/// in the comparison word, `EQ` in one and `NE` in the other, a comparison
/// reads the same values from both (the tokens after the word, which they
/// share), and the outcome on the `NE` line is the negation of the outcome
/// on the `EQ` line, for two numbers, two words, or a number and a word.
pub proof fn law_ne_negates_eq_lines(
    cond: Condition,
    p_eq: Seq<Seq<char>>,
    p_ne: Seq<Seq<char>>,
    r: ComparisonPlan,
    lhs_num: bool,
    rhs_num: bool,
    words_equal: bool,
    order: NumOrder,
)
    requires
        !cond.assigned_true,
        p_eq.len() == p_ne.len(),
        p_eq.len() <= usize::MAX,
        cond.cond_start < p_eq.len(),
        p_eq[cond.cond_start as int] == "EQ"@,
        p_ne[cond.cond_start as int] == "NE"@,
        forall|j: int| 0 <= j < p_eq.len() && j != cond.cond_start ==> p_eq[j] == p_ne[j],
        comparison_plan_ok(cond, p_eq, r),
    ensures
        comparison_plan_ok(cond, p_ne, r),
        r matches ComparisonPlan::Compare { op, .. } ==> op == cond.cond_start && comparison_outcome(
            p_ne[op as int],
            lhs_num,
            rhs_num,
            words_equal,
            order,
        ) == Some(!comparison_outcome(p_eq[op as int], lhs_num, rhs_num, words_equal, order).unwrap()),
{
    let ls = cond.cond_start + 1;
    if p_eq.len() != 1 && ls < p_eq.len() {
        if let ComparisonPlan::Compare { op, lhs, rhs } = r {
            lemma_value_plan_same_tail(p_eq, p_ne, ls, Some(lhs));
            if lhs.end() < p_eq.len() {
                assert(value_plan_ok(p_eq, lhs.end(), rhs));
                assert(lhs.end() >= ls) by {
                    if lhs is Expression {
                        lemma_expr_plan_advances(p_eq, ls);
                    }
                }
                lemma_value_plan_same_tail(p_eq, p_ne, lhs.end(), rhs);
            }
            law_ne_negates_eq(lhs_num, rhs_num, words_equal, order);
        }
    }
}

/// `GT a b` and `LT b a` over whole condition lines: for single-token values
/// `a` and `b`, the comparison of `w GT a b` reads `a` then `b`, that of
/// `w LT b a` reads `b` then `a`, and the first holds exactly when the
/// second does; both are false unless both values are numbers.
pub proof fn law_gt_is_lt_swapped_lines(
    cond: Condition,
    w: Seq<char>,
    a: Seq<char>,
    b: Seq<char>,
    r1: ComparisonPlan,
    r2: ComparisonPlan,
    a_num: bool,
    b_num: bool,
    words_equal: bool,
    order: NumOrder,
)
    requires
        !cond.assigned_true,
        cond.cond_start == 1,
        !is_operator_name(a),
        !is_operator_name(b),
        comparison_plan_ok(cond, seq![w, "GT"@, a, b], r1),
        comparison_plan_ok(cond, seq![w, "LT"@, b, a], r2),
    ensures
        r1 == (ComparisonPlan::Compare {
            op: 1,
            lhs: ValuePlan::Operand(2),
            rhs: Some(ValuePlan::Operand(3)),
        }),
        r2 == r1,
        seq![w, "GT"@, a, b][2] == seq![w, "LT"@, b, a][3],
        seq![w, "GT"@, a, b][3] == seq![w, "LT"@, b, a][2],
        comparison_outcome(seq![w, "GT"@, a, b][1], a_num, b_num, words_equal, order)
            == comparison_outcome(seq![w, "LT"@, b, a][1], b_num, a_num, words_equal, reversed_order(order)),
        comparison_outcome(seq![w, "GT"@, a, b][1], a_num, b_num, words_equal, order) == Some(a_num
            && b_num && order == NumOrder::Greater),
{
    let p1 = seq![w, "GT"@, a, b];
    let p2 = seq![w, "LT"@, b, a];
    assert(p1[2] == a && p1[3] == b && p2[2] == b && p2[3] == a);
    law_gt_is_lt_swapped(a_num, b_num, words_equal, order);
}

/// How the condition of a `WHILE`/`IF` line is evaluated.
#[derive(Debug, PartialEq)]
pub enum CheckPlan {
    /// No comparisons are recorded for the line (`None`).
    Unknown,
    /// The line has no connective to read: indexing past the tokens, a panic.
    Panics,
    /// Evaluate both comparisons, then combine them by the connective (token 1).
    Both(ComparisonPlan, ComparisonPlan),
}

/// How the condition of line `line_idx`, whose tokens are `params`, is
/// evaluated: by the comparisons recorded for the line.
pub fn check_condition<N: Copy>(line_idx: usize, params: &[&str], turtle: &Turtle<N>) -> (r:
    CheckPlan)
    requires
        turtle.wf(),
    ensures
        !turtle.conds().contains_key(line_idx) ==> r is Unknown,
        turtle.conds().contains_key(line_idx) && params@.len() < 2 ==> r is Panics,
        turtle.conds().contains_key(line_idx) && params@.len() >= 2 ==> (r matches CheckPlan::Both(
            p1,
            p2,
        ) && comparison_plan_ok(turtle.conds()[line_idx].0, str_views(params@), p1)
            && comparison_plan_ok(turtle.conds()[line_idx].1, str_views(params@), p2)),
        r matches CheckPlan::Both(p1, p2) ==> (p1 matches ComparisonPlan::Compare { op, lhs, rhs }
            ==> op < params@.len() && (rhs matches Some(p) ==> p.end() <= params@.len())) && (
        p2 matches ComparisonPlan::Compare { op, lhs, rhs } ==> op < params@.len() && (
        rhs matches Some(p) ==> p.end() <= params@.len())),
{
    match turtle.get_conds(line_idx) {
        Some(conds) => {
            if params.len() < 2 {
                return CheckPlan::Panics;
            }
            let first = evaluate_cond(&conds.0, params);
            let second = evaluate_cond(&conds.1, params);
            CheckPlan::Both(first, second)
        },
        None => CheckPlan::Unknown,
    }
}

// ----- MAKE and ADDASSIGN -----

/// Whether the name token after `MAKE`/`ADDASSIGN` can have its first
/// character cut off: it must start with a one-byte character.
pub open spec fn name_cut_ok(tok: Seq<char>) -> bool {
    tok.len() > 0 && (tok[0] as u32) < 0x80
}

/// The token with its first (one-byte) character cut off; `None` where
/// cutting one byte would cut inside a character (a panic).
pub fn cut_first_char(tok: &str) -> (r: Option<&str>)
    ensures
        r is Some <==> name_cut_ok(tok@),
        r matches Some(n) ==> n@ == tok@.drop_first(),
{
    let n = tok.unicode_len();
    if n == 0 {
        return None;
    }
    if (tok.get_char(0) as u32) >= 0x80 {
        return None;
    }
    let r = tok.substring_char(1, n);
    assert(r@ =~= tok@.drop_first());
    Some(r)
}

/// Whether a `MAKE`/`ADDASSIGN` line has the wrong number of tokens: fewer
/// than three, or more than three without an expression after the name.
pub open spec fn assign_arity_wrong(params: Seq<Seq<char>>) -> bool {
    (params.len() > 3 && !is_operator_name(params[2])) || params.len() < 3
}

/// What a `MAKE` line stores.
#[derive(Debug, PartialEq)]
pub enum MakePlan<'a, N> {
    /// The line is malformed (`None`).
    Invalid,
    /// Cutting the `"` off the name cuts inside a character: a panic.
    Panics,
    /// Store the value of a query word as a number.
    Query { name: &'a str, value: QueryValue<N> },
    /// Store the value read by the plan, a number or a word.
    Value { name: &'a str, value: ValuePlan },
}

/// What `make_cmd` gives for the tokens `t` of a `MAKE` line.
pub open spec fn make_plan_ok<'a, N: Copy>(turtle: Turtle<N>, t: Seq<Seq<char>>, r: MakePlan<'a, N>) -> bool {
    if assign_arity_wrong(t) {
        r is Invalid
    } else if !name_cut_ok(t[1]) {
        r is Panics
    } else if t[2] == "XCOR"@ || t[2] == "YCOR"@ || t[2] == "COLOR"@ || t[2] == "HEADING"@ {
        r matches MakePlan::Query { name, value } && name@ == t[1].drop_first()
            && turtle.query_ok(t[2], Some(value))
    } else {
        r matches MakePlan::Value { name, value } && name@ == t[1].drop_first()
            && value_plan_ok(t, 2, Some(value)) && value.end() <= t.len()
    }
}

/// What `MAKE "name value` stores: the value of a query word, or the value
/// read from token 2 on.
pub fn make_cmd<'a, N: Copy>(turtle: &Turtle<N>, params: &[&'a str]) -> (r: MakePlan<'a, N>)
    requires
        turtle.wf(),
    ensures
        make_plan_ok(*turtle, str_views(params@), r),
{
    let ghost t = str_views(params@);
    if (params.len() > 3 && !is_arithmetic_operator(params[2])) || params.len() < 3 {
        proof {
            if params@.len() > 3 {
                assert(t[2] == params@[2]@);
            }
        }
        return MakePlan::Invalid;
    }
    proof {
        assert(t[1] == params@[1]@);
        assert(t[2] == params@[2]@);
    }
    let k = match cut_first_char(params[1]) {
        Some(k) => k,
        None => {
            return MakePlan::Panics;
        },
    };
    let q = params[2];
    if str_eq(q, "XCOR") || str_eq(q, "YCOR") || str_eq(q, "COLOR") || str_eq(q, "HEADING") {
        match turtle.make_query(q) {
            Some(v) => MakePlan::Query { name: k, value: v },
            None => MakePlan::Invalid,
        }
    } else {
        match parse_value(params, 2) {
            Some(v) => MakePlan::Value { name: k, value: v },
            None => MakePlan::Invalid,
        }
    }
}

/// What an `ADDASSIGN` line adds.
#[derive(Debug, PartialEq)]
pub enum AddAssignPlan<'a, N> {
    /// The line is malformed, or the variable is unset or holds a word (`None`).
    Invalid,
    /// Cutting the `"` off the name cuts inside a character: a panic.
    Panics,
    /// Add the number read by `value` to `current`, the number that
    /// variable `name` holds.
    Add { name: &'a str, current: N, value: ValuePlan },
}

/// What `add_assign` gives for the tokens `t` of an `ADDASSIGN` line.
pub open spec fn add_assign_plan_ok<'a, N: Copy>(
    turtle: Turtle<N>,
    t: Seq<Seq<char>>,
    r: AddAssignPlan<'a, N>,
) -> bool {
    if assign_arity_wrong(t) {
        r is Invalid
    } else if !name_cut_ok(t[1]) {
        r is Panics
    } else {
        let name = t[1].drop_first();
        if turtle.vars().contains_key(name) && turtle.vars()[name].is_f32 {
            r matches AddAssignPlan::Add { name: n, current, value } && n@ == name && current
                == turtle.vars()[name].f32_value && value_plan_ok(t, 2, Some(value))
                && value.end() <= t.len()
        } else {
            r is Invalid
        }
    }
}

/// What `ADDASSIGN "name value` adds: the value read from token 2 on, to
/// the number that the variable holds.
pub fn add_assign<'a, N: Copy>(turtle: &Turtle<N>, params: &[&'a str]) -> (r: AddAssignPlan<'a, N>)
    requires
        turtle.wf(),
    ensures
        add_assign_plan_ok(*turtle, str_views(params@), r),
{
    let ghost t = str_views(params@);
    if (params.len() > 3 && !is_arithmetic_operator(params[2])) || params.len() < 3 {
        proof {
            if params@.len() > 3 {
                assert(t[2] == params@[2]@);
            }
        }
        return AddAssignPlan::Invalid;
    }
    proof {
        assert(t[1] == params@[1]@);
    }
    let k = match cut_first_char(params[1]) {
        Some(k) => k,
        None => {
            return AddAssignPlan::Panics;
        },
    };
    match turtle.search_assign(k) {
        Some(float_result) => {
            match parse_value(params, 2) {
                Some(v) => AddAssignPlan::Add { name: k, current: float_result, value: v },
                None => AddAssignPlan::Invalid,
            }
        },
        None => AddAssignPlan::Invalid,
    }
}

} // verus!
