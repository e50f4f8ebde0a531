//! Planning before solving: the prompt that asks for a plan, how approaches
//! are read out of the plan, how the budget is spread over the approaches,
//! and the prompt that solves with one approach.

use vstd::prelude::*;
use crate::pattern::{all_captures, compile_pattern, spec_all_captures, spec_compile_error};
use crate::json::{get_member, jget, jview, jview_items, lemma_jview_items, JsonValue, JsonView};
use crate::text::{replace_all, spec_trim, strings_view};

verus! {

/// The prompt that asks for a plan; `{problem}` stands for the problem.
pub const PLANNING_TEMPLATE: &'static str = "Before solving this problem, I want you to first create a plan with different approaches to explore. This will help generate diverse solution strategies.

Problem: {problem}

Please provide a plan with 3 distinct approaches or hypotheses for solving this problem. Format your response as:

APPROACH 1: [Brief description of first method/strategy]
APPROACH 2: [Brief description of second method/strategy]
APPROACH 3: [Brief description of third method/strategy]

Make sure each approach represents a genuinely different mathematical strategy or perspective for tackling this problem.";

/// The prompt that solves with one approach; `{problem}` and `{approach}`
/// stand for the problem and the approach.
pub const APPROACH_TEMPLATE: &'static str = "Using the {approach} method from your plan, solve this problem step by step:

Problem: {problem}

Approach to use: {approach}

Please solve the problem following this specific approach and show your work clearly. Make sure to box your final answer using \\boxed{{answer}}.";

/// The pattern of a structured approach line; group 1 is its description.
pub const APPROACH_PATTERN: &'static str = "(?i)APPROACH\\s+\\d+:\\s*(.+)";

/// The approaches used when the plan names fewer than two.
pub const DEFAULT_APPROACH_1: &'static str = "Direct algebraic approach using standard techniques";
pub const DEFAULT_APPROACH_2: &'static str = "Alternative method using different mathematical properties";
pub const DEFAULT_APPROACH_3: &'static str = "Geometric or graphical interpretation approach";

/// The most approaches that are explored.
pub const MAX_APPROACHES: usize = 3;

/// The planning prompt for `problem`.
pub fn create_planning_prompt(problem: &str) -> (r: String)
    ensures
        r@ == replace_all(PLANNING_TEMPLATE@, "{problem}"@, problem@),
{
    proof {
        reveal_strlit("{problem}");
    }
    crate::text::replace_text(PLANNING_TEMPLATE, "{problem}", problem)
}

/// The prompt that solves `problem` with `approach`.
pub fn create_approach_prompt(problem: &str, approach: &str) -> (r: String)
    ensures
        r@ == replace_all(replace_all(APPROACH_TEMPLATE@, "{problem}"@, problem@), "{approach}"@, approach@),
{
    proof {
        reveal_strlit("{problem}");
        reveal_strlit("{approach}");
    }
    let with_problem = crate::text::replace_text(APPROACH_TEMPLATE, "{problem}", problem);
    crate::text::replace_text(with_problem.as_str(), "{approach}", approach)
}

/// The trimmed, non-empty descriptions among the matches' group 1.
pub open spec fn described(caps: Seq<Seq<Option<Seq<char>>>>) -> Seq<Seq<char>>
    decreases caps.len(),
{
    if caps.len() == 0 {
        Seq::empty()
    } else {
        let prev = described(caps.drop_last());
        let g = caps.last();
        if g.len() > 1 && g[1] is Some && spec_trim(g[1]->0).len() > 0 {
            prev.push(spec_trim(g[1]->0))
        } else {
            prev
        }
    }
}

/// The approaches written as `APPROACH n: description` lines.
pub open spec fn structured_approaches(plan: Seq<char>) -> Seq<Seq<char>> {
    if spec_compile_error(APPROACH_PATTERN@, false, false) is None {
        described(spec_all_captures(APPROACH_PATTERN@, false, false, plan))
    } else {
        Seq::empty()
    }
}

/// The lines of `s`, split at each newline.
pub open spec fn split_lines(s: Seq<char>) -> Seq<Seq<char>>
    decreases s.len(),
{
    if s.len() == 0 {
        seq![Seq::empty()]
    } else {
        let prev = split_lines(s.drop_last());
        if s.last() == '\n' {
            prev.push(Seq::empty())
        } else {
            prev.update(prev.len() - 1, prev.last().push(s.last()))
        }
    }
}

/// `c` is an ASCII digit.
pub open spec fn is_digit(c: char) -> bool {
    '0' <= c && c <= '9'
}

/// The description of a numbered line `d. description` (one digit), trimmed.
pub open spec fn numbered_item(line: Seq<char>) -> Option<Seq<char>> {
    let t = spec_trim(line);
    if t.len() >= 2 && is_digit(t[0]) && t[1] == '.' && spec_trim(t.skip(2)).len() > 0 {
        Some(spec_trim(t.skip(2)))
    } else {
        None
    }
}

/// The descriptions of the numbered lines, in order.
pub open spec fn numbered_items(lines: Seq<Seq<char>>) -> Seq<Seq<char>>
    decreases lines.len(),
{
    if lines.len() == 0 {
        Seq::empty()
    } else {
        match numbered_item(lines.last()) {
            Some(d) => numbered_items(lines.drop_last()).push(d),
            None => numbered_items(lines.drop_last()),
        }
    }
}

/// The default approaches.
pub open spec fn default_approaches() -> Seq<Seq<char>> {
    seq![DEFAULT_APPROACH_1@, DEFAULT_APPROACH_2@, DEFAULT_APPROACH_3@]
}

/// The approaches read from a plan: the structured ones, else the numbered
/// lines; the defaults when fewer than two; at most three.
pub open spec fn approaches_of(plan: Seq<char>) -> Seq<Seq<char>> {
    let found = if structured_approaches(plan).len() > 0 {
        structured_approaches(plan)
    } else {
        numbered_items(split_lines(plan))
    };
    let chosen = if found.len() < 2 {
        default_approaches()
    } else {
        found
    };
    if chosen.len() > 3 {
        chosen.take(3)
    } else {
        chosen
    }
}

/// A plan that names at least two approaches is followed: as `APPROACH n:`
/// lines when it has any, else as numbered lines, the approaches come back
/// in order, at most three of them; the default approaches are used only
/// when fewer than two are named; and two or three approaches always come
/// back.
pub proof fn law_named_approaches_are_kept(plan: Seq<char>)
    ensures
        ({
            let r = approaches_of(plan);
            let structured = structured_approaches(plan);
            let numbered = numbered_items(split_lines(plan));
            &&& 2 <= r.len() <= 3
            &&& structured.len() >= 2 ==> r.len() == (if structured.len() < 3 { structured.len() } else { 3 })
                && forall|i: int| 0 <= i < r.len() ==> #[trigger] r[i] == structured[i]
            &&& structured.len() == 0 && numbered.len() >= 2 ==> r.len() == (if numbered.len() < 3 { numbered.len() } else { 3 })
                && forall|i: int| 0 <= i < r.len() ==> #[trigger] r[i] == numbered[i]
            &&& structured.len() == 1 ==> r == default_approaches()
            &&& structured.len() == 0 && numbered.len() < 2 ==> r == default_approaches()
        }),
{
}

/// The lines of `s` (see [`split_lines`]).
fn lines_of(s: &str) -> (r: Vec<String>)
    ensures
        strings_view(r@) == split_lines(s@),
{
    let cs = crate::text::chars_of(s);
    let mut lines: Vec<String> = Vec::new();
    let mut cur: Vec<char> = Vec::new();
    let mut i: usize = 0;
    while i < cs.len()
        invariant
            i <= cs@.len(),
            cs@ == s@,
            strings_view(lines@).push(cur@) == split_lines(s@.take(i as int)),
        decreases cs@.len() - i,
    {
        assert(s@.take(i + 1).drop_last() =~= s@.take(i as int));
        assert(s@.take(i + 1).last() == cs@[i as int]);
        if cs[i] == '\n' {
            let line = crate::text::string_of_chars(&cur);
            let ghost before = strings_view(lines@);
            lines.push(line);
            cur = Vec::new();
            assert(strings_view(lines@) =~= before.push(line@));
            assert(strings_view(lines@).push(cur@) =~= before.push(line@).push(Seq::empty()));
        } else {
            let ghost before = strings_view(lines@);
            let ghost old_cur = cur@;
            cur.push(cs[i]);
            assert(strings_view(lines@).push(cur@) =~= before.push(old_cur).update(before.len() as int, old_cur.push(cs@[i as int])));
        }
        i = i + 1;
    }
    let ghost before = strings_view(lines@);
    let last = crate::text::string_of_chars(&cur);
    lines.push(last);
    assert(s@.take(cs@.len() as int) =~= s@);
    assert(strings_view(lines@) =~= before.push(cur@));
    lines
}

/// The description of a numbered line (see [`numbered_item`]).
fn numbered_item_of(line: &String) -> (r: Option<String>)
    ensures
        crate::voting::opt_view(r) == numbered_item(line@),
{
    let t = crate::text::trim_text(line.as_str());
    let tc = crate::text::chars_of(t.as_str());
    if tc.len() >= 2 && '0' <= tc[0] && tc[0] <= '9' && tc[1] == '.' {
        let mut rest: Vec<char> = Vec::new();
        let mut k: usize = 2;
        while k < tc.len()
            invariant
                2 <= k <= tc@.len(),
                rest@ == tc@.subrange(2, k as int),
            decreases tc@.len() - k,
        {
            rest.push(tc[k]);
            k = k + 1;
            assert(rest@ =~= tc@.subrange(2, k as int));
        }
        assert(rest@ =~= t@.skip(2));
        let rs = crate::text::string_of_chars(&rest);
        let d = crate::text::trim_text(rs.as_str());
        if d.as_str().is_empty() {
            None
        } else {
            Some(d)
        }
    } else {
        None
    }
}

/// The approaches named in a plan (see [`approaches_of`]).
pub fn extract_approaches(plan: &str) -> (r: Vec<String>)
    ensures
        strings_view(r@) == approaches_of(plan@),
{
    let mut found: Vec<String> = Vec::new();
    match compile_pattern(APPROACH_PATTERN, false, false) {
        Ok(re) => {
            let caps = all_captures(&re, plan);
            let ghost cv = caps@.map_values(|g: Vec<Option<String>>| crate::pattern::groups_view(g@));
            let mut i: usize = 0;
            while i < caps.len()
                invariant
                    i <= caps@.len(),
                    cv == caps@.map_values(|g: Vec<Option<String>>| crate::pattern::groups_view(g@)),
                    strings_view(found@) == described(cv.take(i as int)),
                decreases caps@.len() - i,
            {
                assert(cv.take(i + 1).drop_last() =~= cv.take(i as int));
                assert(cv.take(i + 1).last() == crate::pattern::groups_view(caps@[i as int]@));
                let g = &caps[i];
                if g.len() > 1 {
                    match &g[1] {
                        Some(d) => {
                            let t = crate::text::trim_text(d.as_str());
                            if !t.as_str().is_empty() {
                                let ghost before = strings_view(found@);
                                found.push(t);
                                assert(strings_view(found@) =~= before.push(spec_trim(d@)));
                            }
                        },
                        None => {},
                    }
                }
                i = i + 1;
            }
            assert(cv.take(caps@.len() as int) =~= cv);
        },
        Err(_) => {
            assert(strings_view(found@) =~= Seq::<Seq<char>>::empty());
        },
    }
    if found.len() == 0 {
        let lines = lines_of(plan);
        let ghost lv = strings_view(lines@);
        let mut i: usize = 0;
        while i < lines.len()
            invariant
                i <= lines@.len(),
                lv == strings_view(lines@),
                strings_view(found@) == numbered_items(lv.take(i as int)),
            decreases lines@.len() - i,
        {
            assert(lv.take(i + 1).drop_last() =~= lv.take(i as int));
            assert(lv.take(i + 1).last() == lines@[i as int]@);
            let ghost before = strings_view(found@);
            match numbered_item_of(&lines[i]) {
                Some(d) => {
                    found.push(d);
                    assert(strings_view(found@) =~= before.push(d@));
                },
                None => {},
            }
            i = i + 1;
        }
        assert(lv.take(lines@.len() as int) =~= lv);
    }
    if found.len() < 2 {
        found = vec![
            crate::text::owned(DEFAULT_APPROACH_1),
            crate::text::owned(DEFAULT_APPROACH_2),
            crate::text::owned(DEFAULT_APPROACH_3),
        ];
        assert(strings_view(found@) =~= default_approaches());
    }
    if found.len() > MAX_APPROACHES {
        let mut kept: Vec<String> = Vec::new();
        let mut i: usize = 0;
        while i < MAX_APPROACHES
            invariant
                i <= 3,
                found@.len() > 3,
                strings_view(kept@) == strings_view(found@).take(i as int),
            decreases 3 - i,
        {
            let ghost before = strings_view(kept@);
            kept.push(found[i].clone());
            assert(strings_view(kept@) =~= before.push(found@[i as int]@));
            i = i + 1;
            assert(strings_view(kept@) =~= strings_view(found@).take(i as int));
        }
        kept
    } else {
        found
    }
}

/// The budget left for the approaches after the planning call.
pub open spec fn remaining_budget(budget: u32) -> int {
    if budget >= 1 {
        budget - 1
    } else {
        0
    }
}

/// The base budget of each approach: an even share, at least one.
pub open spec fn base_share(budget: u32, n: u32) -> int {
    if n == 0 || remaining_budget(budget) / (n as int) < 1 {
        1
    } else {
        remaining_budget(budget) / (n as int)
    }
}

/// The budgets handed out so far, approach by approach: the base share, one
/// more for the first `remaining % n` approaches while that stays below the
/// remaining budget.
pub open spec fn budgets_upto(budget: u32, n: u32, i: nat) -> Seq<int>
    decreases i,
{
    if i == 0 {
        Seq::empty()
    } else {
        let prev = budgets_upto(budget, n, (i - 1) as nat);
        let total = sum_of(prev);
        let b = base_share(budget, n);
        let extra = n > 0 && total + b < remaining_budget(budget) && ((i - 1) as int) < remaining_budget(budget) % (n as int);
        prev.push(if extra {
            b + 1
        } else {
            b
        })
    }
}

/// The sum of a sequence of integers.
pub open spec fn sum_of(s: Seq<int>) -> int
    decreases s.len(),
{
    if s.len() == 0 {
        0
    } else {
        sum_of(s.drop_last()) + s.last()
    }
}

/// The budget of each of `n` approaches out of `budget` (one call of which
/// goes to planning).
pub fn approach_budgets(budget: u32, n: u32) -> (r: Vec<u32>)
    ensures
        r@.len() == n,
        forall|i: int| 0 <= i < n ==> (#[trigger] r@[i]) as int == budgets_upto(budget, n, n as nat)[i],
{
    if n == 0 {
        return Vec::new();
    }
    let remaining: u32 = if budget >= 1 { budget - 1 } else { 0 };
    let per: u32 = if n == 0 || remaining / n < 1 { 1 } else { remaining / n };
    let extra_count: u32 = if n == 0 { 0 } else { remaining % n };
    let mut out: Vec<u32> = Vec::new();
    let mut total: u64 = 0;
    let mut i: u32 = 0;
    proof {
        lemma_budgets_bound(budget, n, 0);
    }
    while i < n
        invariant
            i <= n,
            n > 0,
            remaining as int == remaining_budget(budget),
            per as int == base_share(budget, n),
            extra_count as int == remaining_budget(budget) % (n as int),
            out@.len() == i,
            total as int == sum_of(budgets_upto(budget, n, i as nat)),
            forall|k: int| 0 <= k < i ==> (#[trigger] out@[k]) as int == budgets_upto(budget, n, i as nat)[k],
        decreases n - i,
    {
        proof {
            lemma_budgets_bound(budget, n, i as nat);
            lemma_budgets_bound(budget, n, (i + 1) as nat);
        }
        let mut b: u32 = per;
        if total + (per as u64) < (remaining as u64) && i < extra_count {
            b = per + 1;
        }
        out.push(b);
        total = total + (b as u64);
        i = i + 1;
        assert(budgets_upto(budget, n, i as nat).drop_last() == budgets_upto(budget, n, (i - 1) as nat));
    }
    out
}

/// Every budget handed out is a base share or one more, and the running
/// total stays within `i * (u32::MAX + 1)`.
proof fn lemma_budgets_bound(budget: u32, n: u32, i: nat)
    ensures
        budgets_upto(budget, n, i).len() == i,
        forall|k: int| 0 <= k < i ==> {
            let b = #[trigger] budgets_upto(budget, n, i)[k];
            b == base_share(budget, n) || b == base_share(budget, n) + 1
        },
        0 <= sum_of(budgets_upto(budget, n, i)) <= i * 0x1_0000_0000,
        base_share(budget, n) + 1 <= 0x1_0000_0000,
    decreases i,
{
    if n > 0 && remaining_budget(budget) / (n as int) >= 1 {
        assert(remaining_budget(budget) / (n as int) <= remaining_budget(budget)) by (nonlinear_arith)
            requires
                n > 0,
                remaining_budget(budget) >= 0,
        ;
    }
    if i > 0 {
        lemma_budgets_bound(budget, n, (i - 1) as nat);
        let prev = budgets_upto(budget, n, (i - 1) as nat);
        let cur = budgets_upto(budget, n, i);
        assert(cur.drop_last() =~= prev);
        assert(cur.last() == base_share(budget, n) || cur.last() == base_share(budget, n) + 1);
        assert(sum_of(cur) == sum_of(prev) + cur.last());
        assert(base_share(budget, n) >= 1);
        assert(i * 0x1_0000_0000 == (i - 1) * 0x1_0000_0000 + 0x1_0000_0000) by (nonlinear_arith)
            requires
                i > 0,
        ;
        assert forall|k: int| 0 <= k < i implies {
            let b = #[trigger] budgets_upto(budget, n, i)[k];
            b == base_share(budget, n) || b == base_share(budget, n) + 1
        } by {
            if k < i - 1 {
                assert(budgets_upto(budget, n, i)[k] == prev[k]);
            }
        }
    }
}

/// With at least one call per approach left, the approaches' budgets
/// follow the even split exactly, up to the point `i`.
proof fn lemma_even_split_prefix(budget: u32, n: u32, i: nat)
    requires
        n > 0,
        remaining_budget(budget) >= n,
        i <= n,
    ensures
        budgets_upto(budget, n, i).len() == i,
        forall|k: int| 0 <= k < i ==> #[trigger] budgets_upto(budget, n, i)[k] == remaining_budget(budget) / (n as int) + (if k < remaining_budget(budget) % (n as int) {
            1int
        } else {
            0int
        }),
        sum_of(budgets_upto(budget, n, i)) == i * (remaining_budget(budget) / (n as int)) + (if (i as int) < remaining_budget(budget) % (n as int) {
            i as int
        } else {
            remaining_budget(budget) % (n as int)
        }),
    decreases i,
{
    let rem = remaining_budget(budget);
    let per = rem / (n as int);
    let r = rem % (n as int);
    assert(rem == (n as int) * per + r && 0 <= r < n && per >= 1) by (nonlinear_arith)
        requires
            n > 0,
            rem >= n,
            per == rem / (n as int),
            r == rem % (n as int),
    ;
    if i > 0 {
        lemma_even_split_prefix(budget, n, (i - 1) as nat);
        let prev = budgets_upto(budget, n, (i - 1) as nat);
        let cur = budgets_upto(budget, n, i);
        let j = (i - 1) as int;
        assert(cur.drop_last() =~= prev);
        assert(base_share(budget, n) == per);
        if j < r {
            assert(sum_of(prev) == j * per + j);
            assert((j + 1) * per <= (n as int) * per) by (nonlinear_arith)
                requires
                    j + 1 <= n,
                    per >= 1,
            ;
            assert(j * per + per == (j + 1) * per) by (nonlinear_arith);
            assert(sum_of(prev) + per < rem);
            assert(cur.last() == per + 1);
            assert(i * per == j * per + per) by (nonlinear_arith)
                requires
                    i == j + 1,
            ;
        } else {
            assert(cur.last() == per);
            assert(i * per == j * per + per) by (nonlinear_arith)
                requires
                    i == j + 1,
            ;
        }
        assert(sum_of(cur) == sum_of(prev) + cur.last());
        assert forall|k: int| 0 <= k < i implies #[trigger] budgets_upto(budget, n, i)[k] == per + (if k < r {
            1int
        } else {
            0int
        }) by {
            if k < j {
                assert(cur[k] == prev[k]);
            }
        }
    }
}

/// Every approach gets a budget of at least one.
pub proof fn law_budgets_at_least_one(budget: u32, n: u32)
    ensures
        budgets_upto(budget, n, n as nat).len() == n,
        forall|k: int| 0 <= k < n ==> #[trigger] budgets_upto(budget, n, n as nat)[k] >= 1,
{
    lemma_budgets_bound(budget, n, n as nat);
    assert forall|k: int| 0 <= k < n implies #[trigger] budgets_upto(budget, n, n as nat)[k] >= 1 by {
        assert(base_share(budget, n) >= 1);
    }
}

/// When at least one call per approach remains, the budget after planning
/// is split evenly: every approach gets the quotient, the first `remainder`
/// approaches one more, the budgets add up to the remaining budget, they
/// never grow from one approach to the next, and no two differ by more
/// than one.
pub proof fn law_budgets_split_evenly(budget: u32, n: u32)
    requires
        n > 0,
        remaining_budget(budget) >= n,
    ensures
        budgets_upto(budget, n, n as nat).len() == n,
        forall|k: int| 0 <= k < n ==> #[trigger] budgets_upto(budget, n, n as nat)[k] == remaining_budget(budget) / (n as int) + (if k < remaining_budget(budget) % (n as int) {
            1int
        } else {
            0int
        }),
        sum_of(budgets_upto(budget, n, n as nat)) == remaining_budget(budget),
        forall|i: int, j: int|
            0 <= i < j < n ==> #[trigger] budgets_upto(budget, n, n as nat)[i] >= #[trigger] budgets_upto(budget, n, n as nat)[j]
                && budgets_upto(budget, n, n as nat)[i] - budgets_upto(budget, n, n as nat)[j] <= 1,
{
    lemma_even_split_prefix(budget, n, n as nat);
    let rem = remaining_budget(budget);
    assert(rem == (n as int) * (rem / (n as int)) + rem % (n as int) && rem % (n as int) < n) by (nonlinear_arith)
        requires
            n > 0,
            rem >= 0,
    ;
}

/// A placeholder for Metropolis-Hastings sampling, which is not available.
pub struct MetropolisHastings;

impl MetropolisHastings {
    /// The placeholder algorithm.
    pub fn new() -> (r: MetropolisHastings)
        ensures
            r == MetropolisHastings,
    {
        MetropolisHastings
    }

    /// Inference is refused with an error naming the missing algorithm,
    /// whatever the request.
    pub fn infer(
        &self,
        _messages: &Vec<crate::messages::ChatMessage>,
        _budget: u32,
        _return_response_only: bool,
        _max_tokens: Option<u32>,
        _tools: Option<&JsonValue>,
        _tool_choice: Option<&JsonValue>,
    ) -> (r: Result<(), String>)
        ensures
            r is Err && r->Err_0@ == "MetropolisHastings not yet implemented"@,
    {
        Err(crate::text::owned("MetropolisHastings not yet implemented"))
    }
}

impl Default for MetropolisHastings {
    fn default() -> (r: MetropolisHastings)
        ensures
            r == MetropolisHastings,
    {
        MetropolisHastings::new()
    }
}

/// The texts of the numbers among the items, in order.
pub open spec fn number_texts(items: Seq<JsonView>) -> Seq<Seq<char>>
    decreases items.len(),
{
    if items.len() == 0 {
        Seq::empty()
    } else {
        match items.last() {
            JsonView::Number(n) => number_texts(items.drop_last()).push(n),
            _ => number_texts(items.drop_last()),
        }
    }
}

/// The numbers of a list of weight lists, in order: each inner list's
/// numbers, or the item itself when it is a number.
pub open spec fn nested_numbers(items: Seq<JsonView>) -> Seq<Seq<char>>
    decreases items.len(),
{
    if items.len() == 0 {
        Seq::empty()
    } else {
        match items.last() {
            JsonView::Array(inner) => nested_numbers(items.drop_last()) + number_texts(inner),
            JsonView::Number(n) => nested_numbers(items.drop_last()).push(n),
            _ => nested_numbers(items.drop_last()),
        }
    }
}

/// The numbers listed under `key`, when it holds a list.
pub open spec fn listed_numbers(meta: JsonView, key: Seq<char>) -> Seq<Seq<char>> {
    match jget(meta, key) {
        Some(JsonView::Array(items)) => number_texts(items),
        _ => Seq::empty(),
    }
}

/// The numbers of a score field: the number it holds, or those it lists.
pub open spec fn field_numbers(meta: JsonView, key: Seq<char>) -> Seq<Seq<char>> {
    match jget(meta, key) {
        Some(JsonView::Number(n)) => seq![n],
        Some(JsonView::Array(items)) => number_texts(items),
        _ => Seq::empty(),
    }
}

/// The numbers an approach's result is scored by: those of the first of
/// the fields `best_score`, `max_score`, `score`, `confidence`,
/// `probability` and `weight` that has any; else those listed under
/// `scores`, else under `all_scores`, else the log weights of
/// `log_weights_lst`. The score is the highest of them (zero without any).
pub open spec fn result_score_numbers_of(meta: JsonView) -> Seq<Seq<char>> {
    if field_numbers(meta, "best_score"@).len() > 0 {
        field_numbers(meta, "best_score"@)
    } else if field_numbers(meta, "max_score"@).len() > 0 {
        field_numbers(meta, "max_score"@)
    } else if field_numbers(meta, "score"@).len() > 0 {
        field_numbers(meta, "score"@)
    } else if field_numbers(meta, "confidence"@).len() > 0 {
        field_numbers(meta, "confidence"@)
    } else if field_numbers(meta, "probability"@).len() > 0 {
        field_numbers(meta, "probability"@)
    } else if field_numbers(meta, "weight"@).len() > 0 {
        field_numbers(meta, "weight"@)
    } else if listed_numbers(meta, "scores"@).len() > 0 {
        listed_numbers(meta, "scores"@)
    } else if listed_numbers(meta, "all_scores"@).len() > 0 {
        listed_numbers(meta, "all_scores"@)
    } else {
        match jget(meta, "log_weights_lst"@) {
            Some(JsonView::Array(items)) => nested_numbers(items),
            _ => Seq::empty(),
        }
    }
}

/// Appends the texts of the numbers among `items` to `out`.
fn push_numbers(items: &Vec<JsonValue>, out: &mut Vec<String>)
    ensures
        strings_view(final(out)@) == strings_view(old(out)@) + number_texts(jview_items(items@)),
{
    let ghost start = strings_view(out@);
    let ghost iv = jview_items(items@);
    proof {
        lemma_jview_items(items@);
    }
    let mut i: usize = 0;
    while i < items.len()
        invariant
            i <= items@.len(),
            iv == jview_items(items@),
            iv.len() == items@.len(),
            forall|j: int| 0 <= j < items@.len() ==> #[trigger] iv[j] == jview(items@[j]),
            strings_view(out@) == start + number_texts(iv.take(i as int)),
        decreases items@.len() - i,
    {
        assert(iv.take(i + 1).drop_last() =~= iv.take(i as int));
        assert(iv.take(i + 1).last() == jview(items@[i as int]));
        match &items[i] {
            JsonValue::Number(n) => {
                let ghost before = out@;
                out.push(n.clone());
                assert(strings_view(out@) =~= strings_view(before).push(n@));
                assert(start + number_texts(iv.take(i + 1)) =~= (start + number_texts(iv.take(i as int))).push(n@));
            },
            _ => {},
        }
        i = i + 1;
    }
    assert(iv.take(items@.len() as int) =~= iv);
}

/// The numbers of the score field `key` (see [`field_numbers`]).
fn field_numbers_at(meta: &JsonValue, key: &str) -> (r: Vec<String>)
    ensures
        strings_view(r@) == field_numbers(jview(*meta), key@),
{
    let mut r: Vec<String> = Vec::new();
    match get_member(meta, key) {
        Some(JsonValue::Number(n)) => {
            r.push(n.clone());
            assert(strings_view(r@) =~= seq![n@]);
        },
        Some(JsonValue::Array(items)) => {
            push_numbers(items, &mut r);
            assert(strings_view(r@) =~= number_texts(jview_items(items@)));
        },
        _ => {},
    }
    r
}

/// The numbers listed under `key` (see [`listed_numbers`]).
fn listed_numbers_at(meta: &JsonValue, key: &str) -> (r: Vec<String>)
    ensures
        strings_view(r@) == listed_numbers(jview(*meta), key@),
{
    let mut r: Vec<String> = Vec::new();
    match get_member(meta, key) {
        Some(JsonValue::Array(items)) => {
            push_numbers(items, &mut r);
            assert(strings_view(r@) =~= number_texts(jview_items(items@)));
        },
        _ => {},
    }
    r
}

/// The numbers an approach's result is scored by (see
/// [`result_score_numbers_of`]).
pub fn result_score_numbers(meta: &JsonValue) -> (r: Vec<String>)
    ensures
        strings_view(r@) == result_score_numbers_of(jview(*meta)),
{
    let best = field_numbers_at(meta, "best_score");
    if best.len() > 0 {
        return best;
    }
    let max = field_numbers_at(meta, "max_score");
    if max.len() > 0 {
        return max;
    }
    let score = field_numbers_at(meta, "score");
    if score.len() > 0 {
        return score;
    }
    let confidence = field_numbers_at(meta, "confidence");
    if confidence.len() > 0 {
        return confidence;
    }
    let probability = field_numbers_at(meta, "probability");
    if probability.len() > 0 {
        return probability;
    }
    let weight = field_numbers_at(meta, "weight");
    if weight.len() > 0 {
        return weight;
    }
    let scores = listed_numbers_at(meta, "scores");
    if scores.len() > 0 {
        return scores;
    }
    let all = listed_numbers_at(meta, "all_scores");
    if all.len() > 0 {
        return all;
    }
    proof {
        reveal_strlit("log_weights_lst");
    }
    let mut weights: Vec<String> = Vec::new();
    match get_member(meta, "log_weights_lst") {
        Some(JsonValue::Array(lists)) => {
            let ghost lv = jview_items(lists@);
            proof {
                lemma_jview_items(lists@);
            }
            let mut i: usize = 0;
            while i < lists.len()
                invariant
                    i <= lists@.len(),
                    lv == jview_items(lists@),
                    lv.len() == lists@.len(),
                    forall|j: int| 0 <= j < lists@.len() ==> #[trigger] lv[j] == jview(lists@[j]),
                    strings_view(weights@) == nested_numbers(lv.take(i as int)),
                decreases lists@.len() - i,
            {
                assert(lv.take(i + 1).drop_last() =~= lv.take(i as int));
                assert(lv.take(i + 1).last() == jview(lists@[i as int]));
                match &lists[i] {
                    JsonValue::Array(inner) => push_numbers(inner, &mut weights),
                    JsonValue::Number(n) => {
                        let ghost before = weights@;
                        weights.push(n.clone());
                        assert(strings_view(weights@) =~= strings_view(before).push(n@));
                    },
                    _ => {},
                }
                i = i + 1;
            }
            assert(lv.take(lists@.len() as int) =~= lv);
        },
        _ => {},
    }
    weights
}

} // verus!
