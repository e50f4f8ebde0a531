//! Self-consistency: every response is reduced to what is voted on (its
//! answer, the answers its patterns extract, or the features of its first
//! tool call) and the most common reduction wins.

use vstd::prelude::*;
use crate::canonical::{canonical, canonical_json, keyed_texts, sort_by_key};
use crate::json::{get_member, jget, jview, jview_items, jview_members, JsonValue, JsonView};
use crate::pattern::{compile_pattern, first_captures, spec_compile_error, spec_first_captures, CompiledPattern};
use crate::responses::{
    as_text, extract_content_from_lm_response, filter_args, filtered_args, has_calls, has_tool_calls, kept_members,
    response_text, spec_parse_json,
};
use crate::text::spec_trim;
use crate::voting::{
    all_tuples, count_of, hierarchical_winners, is_mode, select_hierarchical_most_common_or_random,
    select_most_common_or_random, tuples_of, views, ProjectedValue, ProjectedView, ToolVoteStrategy,
    VoteCounts, VoteError,
};

verus! {

/// How a content response is reduced before voting.
pub enum Projection {
    /// The whole text, trimmed.
    Default,
    /// One answer per pattern: the first match's group 1 (or the whole
    /// match without groups), trimmed.
    Regex(Vec<CompiledPattern>),
}

/// The self-consistency algorithm's configuration.
pub struct SelfConsistency {
    pub projection: Projection,
    pub tool_vote: Option<ToolVoteStrategy>,
    pub replace_error_with_message: Option<String>,
}

/// The position of the first pattern that does not compile, if any.
pub open spec fn first_bad_pattern(patterns: Seq<String>, n: int) -> Option<int>
    decreases n,
{
    if n <= 0 {
        None
    } else {
        match first_bad_pattern(patterns, n - 1) {
            Some(i) => Some(i),
            None => if spec_compile_error(patterns[n - 1]@, true, true) is Some {
                Some(n - 1)
            } else {
                None
            },
        }
    }
}

/// The answer a pattern's match gives: group 1 when the pattern has groups,
/// else the whole match, trimmed; none without a match.
pub open spec fn group_answer(caps: Option<Seq<Option<Seq<char>>>>) -> Option<Seq<char>> {
    match caps {
        Some(g) => {
            let m = if g.len() > 1 {
                g[1]
            } else {
                g[0]
            };
            match m {
                Some(s) => Some(spec_trim(s)),
                None => None,
            }
        },
        None => None,
    }
}

/// The answer one compiled pattern extracts from a text.
pub open spec fn pattern_answer(p: CompiledPattern, text: Seq<char>) -> Option<Seq<char>> {
    group_answer(spec_first_captures(p.source(), p.case_insensitive(), p.dot_all(), text))
}

/// What a content response is reduced to.
pub open spec fn projected_content(proj: Projection, response: JsonView) -> ProjectedView {
    let text = response_text(response);
    match proj {
        Projection::Default => ProjectedView::Single(Some(spec_trim(text))),
        Projection::Regex(ps) => ProjectedView::Tuple(ps@.map_values(|p: CompiledPattern| pattern_answer(p, text))),
    }
}

/// The arguments of a tool call as an object: parsed when given as a JSON
/// string (an empty object when that fails), kept when an object, an empty
/// object otherwise.
pub open spec fn parsed_arguments(raw: Option<JsonView>) -> JsonView {
    match raw {
        Some(JsonView::Str(s)) => match spec_parse_json(s) {
            Some(v) => v,
            None => JsonView::Object(Seq::empty()),
        },
        Some(JsonView::Object(ms)) => JsonView::Object(ms),
        _ => JsonView::Object(Seq::empty()),
    }
}

/// `key=value` for each argument, keys in ascending order, values in
/// canonical JSON.
pub open spec fn argument_pairs(args: JsonView) -> Seq<Option<Seq<char>>> {
    match args {
        JsonView::Object(ms) => sort_by_key(keyed_texts(ms)).map_values(
            |kt: (Seq<char>, Seq<char>)| Some(kt.0 + "="@ + kt.1),
        ),
        _ => Seq::empty(),
    }
}

/// The keys excluded by a strategy.
pub open spec fn excluded_keys(s: ToolVoteStrategy) -> Seq<String> {
    match s {
        ToolVoteStrategy::Name => Seq::empty(),
        ToolVoteStrategy::Args { exclude } => exclude@,
        ToolVoteStrategy::Hierarchical { exclude } => exclude@,
    }
}

/// What a tool-call response is reduced to: the first call's function
/// name; its filtered arguments as sorted `key=value` pairs; or both, the
/// name and the canonical arguments.
pub open spec fn tool_features(s: ToolVoteStrategy, response: JsonView) -> ProjectedView {
    match jget(response, "tool_calls"@) {
        Some(JsonView::Array(tcs)) if tcs.len() > 0 => {
            let f = jget(tcs[0], "function"@);
            let name = match f {
                Some(fv) => as_text(jget(fv, "name"@)),
                None => None,
            };
            let raw = match f {
                Some(fv) => jget(fv, "arguments"@),
                None => None,
            };
            let filtered = filtered_args(parsed_arguments(raw), excluded_keys(s));
            match s {
                ToolVoteStrategy::Name => ProjectedView::Single(name),
                ToolVoteStrategy::Args { .. } => ProjectedView::Tuple(argument_pairs(filtered)),
                ToolVoteStrategy::Hierarchical { .. } => ProjectedView::Tuple(seq![name, Some(canonical(filtered))]),
            }
        },
        _ => match s {
            ToolVoteStrategy::Name => ProjectedView::Single(None),
            _ => ProjectedView::Tuple(seq![None, None]),
        },
    }
}

/// The number of responses with tool calls.
pub open spec fn call_count(rs: Seq<JsonView>) -> nat
    decreases rs.len(),
{
    if rs.len() == 0 {
        0
    } else {
        call_count(rs.drop_last()) + if has_calls(rs.last()) {
            1nat
        } else {
            0nat
        }
    }
}

/// The positions of the responses with (or without) tool calls, in order.
pub open spec fn positions_with(rs: Seq<JsonView>, with_calls: bool) -> Seq<int>
    decreases rs.len(),
{
    if rs.len() == 0 {
        Seq::empty()
    } else if has_calls(rs.last()) == with_calls {
        positions_with(rs.drop_last(), with_calls).push(rs.len() - 1)
    } else {
        positions_with(rs.drop_last(), with_calls)
    }
}

/// Whether the vote is on tool calls: a strategy is set and at least half
/// of the responses (rounded up) call tools.
pub open spec fn votes_on_tools(sc: SelfConsistency, rs: Seq<JsonView>) -> bool {
    sc.tool_vote is Some && call_count(rs) >= (rs.len() + 1) / 2
}

/// The positions of the responses that take part in the vote.
pub open spec fn eligible_positions(sc: SelfConsistency, rs: Seq<JsonView>) -> Seq<int> {
    positions_with(rs, votes_on_tools(sc, rs))
}

/// What a content response is reduced to: by the caller's reductions when
/// given (one per response), else by the projection.
pub open spec fn content_reduction(sc: SelfConsistency, custom: Option<Seq<ProjectedView>>, rs: Seq<JsonView>, i: int) -> ProjectedView {
    match custom {
        Some(c) => c[i],
        None => projected_content(sc.projection, rs[i]),
    }
}

/// What each eligible response is reduced to, in order.
pub open spec fn eligible_projection(sc: SelfConsistency, custom: Option<Seq<ProjectedView>>, rs: Seq<JsonView>) -> Seq<ProjectedView> {
    let tools = votes_on_tools(sc, rs);
    eligible_positions(sc, rs).map_values(
        |i: int| if tools {
            tool_features(sc.tool_vote->0, rs[i])
        } else {
            content_reduction(sc, custom, rs, i)
        },
    )
}

/// The views of optional caller reductions.
pub open spec fn custom_view(custom: Option<&Vec<ProjectedValue>>) -> Option<Seq<ProjectedView>> {
    match custom {
        Some(c) => Some(views(c@)),
        None => None,
    }
}

/// The outcome of a vote over `responses` (see [`eligible_projection`]):
/// refused without responses, without eligible responses (reporting how
/// many responses and tool calls there were), or when the reductions mix
/// tuples and single values in hierarchical voting; otherwise an eligible
/// response whose reduction wins, with the counts of the eligible reductions.
pub open spec fn vote_outcome(
    sc: SelfConsistency,
    custom: Option<Seq<ProjectedView>>,
    responses: Seq<JsonValue>,
    r: Result<Selection, SelectionError>,
) -> bool {
    let rs = responses_view(responses);
    let el = eligible_positions(sc, rs);
    let pv = eligible_projection(sc, custom, rs);
    &&& (r == Err::<Selection, SelectionError>(SelectionError::NoResponses)) <==> rs.len() == 0
    &&& (r is Err && r->Err_0 is NoEligible) <==> (rs.len() > 0 && el.len() == 0)
    &&& (r is Err && r->Err_0 is NoEligible) ==> r->Err_0 == (SelectionError::NoEligible {
        total: responses.len() as usize,
        tool_calls: call_count(rs) as usize,
    })
    &&& (r is Err && r->Err_0 is Vote) <==> (el.len() > 0 && pv[0] is Tuple && !all_tuples(pv))
    &&& r is Ok ==> r->Ok_0.selected_index < responses.len() && exists|k: int| {
        &&& 0 <= k < el.len()
        &&& r->Ok_0.selected_index == el[k]
        &&& (if pv[0] is Tuple {
            hierarchical_winners(tuples_of(pv)).contains(k)
        } else {
            is_mode(pv, k)
        })
        &&& forall|v: ProjectedView| #[trigger] r->Ok_0.counts.count_for(v) == count_of(pv, v)
    }
}

/// With the default projection and no vote on tool calls, a response is
/// selected whenever some response has no tool calls; it is one of those,
/// each of them stands for its trimmed content, and no content occurs more
/// often among them than the selected one's.
pub proof fn law_default_vote_picks_most_common(
    sc: SelfConsistency,
    responses: Seq<JsonValue>,
    r: Result<Selection, SelectionError>,
)
    requires
        vote_outcome(sc, None, responses, r),
        sc.projection is Default,
        !votes_on_tools(sc, responses_view(responses)),
        eligible_positions(sc, responses_view(responses)).len() > 0,
    ensures
        ({
            let rs = responses_view(responses);
            let el = eligible_positions(sc, rs);
            let pv = eligible_projection(sc, None, rs);
            &&& el == positions_with(rs, false)
            &&& forall|j: int| 0 <= j < el.len() ==> #[trigger] pv[j] == ProjectedView::Single(Some(spec_trim(response_text(rs[el[j]]))))
            &&& r is Ok
            &&& exists|k: int| {
                &&& 0 <= k < el.len()
                &&& r->Ok_0.selected_index == el[k]
                &&& forall|j: int| 0 <= j < el.len() ==> count_of(pv, #[trigger] pv[j]) <= count_of(pv, pv[k])
            }
        }),
{
    let rs = responses_view(responses);
    let el = eligible_positions(sc, rs);
    let pv = eligible_projection(sc, None, rs);
    if rs.len() == 0 {
        assert(positions_with(rs, false).len() == 0);
    }
    assert(pv[0] == ProjectedView::Single(Some(spec_trim(response_text(rs[el[0]])))));
    assert(r is Ok);
    let k = choose|k: int| {
        &&& 0 <= k < el.len()
        &&& r->Ok_0.selected_index == el[k]
        &&& is_mode(pv, k)
        &&& forall|v: ProjectedView| #[trigger] r->Ok_0.counts.count_for(v) == count_of(pv, v)
    };
    assert forall|j: int| 0 <= j < el.len() implies count_of(pv, #[trigger] pv[j]) <= count_of(pv, pv[k]) by {
        assert(0 <= j < pv.len());
    }
}

/// A tool call whose arguments come as a JSON string votes as the same call
/// with the arguments as an object, whenever the string parses to that
/// object.
pub proof fn law_string_arguments_vote_as_parsed(
    strategy: ToolVoteStrategy,
    with_object: JsonView,
    with_string: JsonView,
    calls_object: Seq<JsonView>,
    calls_string: Seq<JsonView>,
    function_object: JsonView,
    function_string: JsonView,
    members: Seq<(Seq<char>, JsonView)>,
    text: Seq<char>,
)
    requires
        jget(with_object, "tool_calls"@) == Some(JsonView::Array(calls_object)),
        jget(with_string, "tool_calls"@) == Some(JsonView::Array(calls_string)),
        calls_object.len() > 0,
        calls_string.len() > 0,
        jget(calls_object[0], "function"@) == Some(function_object),
        jget(calls_string[0], "function"@) == Some(function_string),
        jget(function_object, "name"@) == jget(function_string, "name"@),
        jget(function_object, "arguments"@) == Some(JsonView::Object(members)),
        jget(function_string, "arguments"@) == Some(JsonView::Str(text)),
    ensures
        spec_parse_json(text) == Some(JsonView::Object(members)) ==> tool_features(strategy, with_object) == tool_features(
            strategy,
            with_string,
        ),
{
}

/// Two argument lists with the same keys in the same order, whose values
/// differ only at keys listed in `exclude`, keep the same members.
proof fn lemma_kept_members_agree(a: Seq<(Seq<char>, JsonView)>, b: Seq<(Seq<char>, JsonView)>, exclude: Seq<String>)
    requires
        a.len() == b.len(),
        forall|i: int| 0 <= i < a.len() ==> (#[trigger] a[i]).0 == b[i].0 && (a[i].1 == b[i].1 || exists|j: int|
            0 <= j < exclude.len() && exclude[j]@ == a[i].0),
    ensures
        kept_members(a, exclude) == kept_members(b, exclude),
    decreases a.len(),
{
    if a.len() > 0 {
        let n = a.len() - 1;
        assert(a[n].0 == b[n].0);
        lemma_kept_members_agree(a.drop_last(), b.drop_last(), exclude);
        if a[n].1 != b[n].1 {
            let j = choose|j: int| 0 <= j < exclude.len() && exclude[j]@ == a[n].0;
            assert(crate::responses::excluded(exclude, a.last().0));
            assert(crate::responses::excluded(exclude, b.last().0));
        }
    }
}

/// Excluded argument keys take no part in the vote: under the argument and
/// the hierarchical strategies, two calls of the same function whose
/// arguments have the same keys in the same order and differ only in the
/// values of keys listed in `exclude` reduce to the same value.
pub proof fn law_excluded_keys_do_not_vote(
    exclude: Vec<String>,
    with_a: JsonView,
    with_b: JsonView,
    calls_a: Seq<JsonView>,
    calls_b: Seq<JsonView>,
    function_a: JsonView,
    function_b: JsonView,
    args_a: Seq<(Seq<char>, JsonView)>,
    args_b: Seq<(Seq<char>, JsonView)>,
)
    requires
        jget(with_a, "tool_calls"@) == Some(JsonView::Array(calls_a)),
        jget(with_b, "tool_calls"@) == Some(JsonView::Array(calls_b)),
        calls_a.len() > 0,
        calls_b.len() > 0,
        jget(calls_a[0], "function"@) == Some(function_a),
        jget(calls_b[0], "function"@) == Some(function_b),
        jget(function_a, "name"@) == jget(function_b, "name"@),
        jget(function_a, "arguments"@) == Some(JsonView::Object(args_a)),
        jget(function_b, "arguments"@) == Some(JsonView::Object(args_b)),
        args_a.len() == args_b.len(),
        forall|i: int| 0 <= i < args_a.len() ==> (#[trigger] args_a[i]).0 == args_b[i].0 && (args_a[i].1 == args_b[i].1
            || exists|j: int| 0 <= j < exclude@.len() && exclude@[j]@ == args_a[i].0),
    ensures
        tool_features(ToolVoteStrategy::Hierarchical { exclude }, with_a) == tool_features(
            ToolVoteStrategy::Hierarchical { exclude },
            with_b,
        ),
        tool_features(ToolVoteStrategy::Args { exclude }, with_a) == tool_features(ToolVoteStrategy::Args { exclude }, with_b),
{
    lemma_kept_members_agree(args_a, args_b, exclude@);
}

/// The called function's name always takes part in the vote: under the
/// name and the hierarchical strategies, calls of functions with different
/// names reduce to different values, whatever their arguments.
pub proof fn law_function_name_votes(
    strategy: ToolVoteStrategy,
    with_a: JsonView,
    with_b: JsonView,
    calls_a: Seq<JsonView>,
    calls_b: Seq<JsonView>,
    function_a: JsonView,
    function_b: JsonView,
    name_a: Seq<char>,
    name_b: Seq<char>,
)
    requires
        !(strategy is Args),
        jget(with_a, "tool_calls"@) == Some(JsonView::Array(calls_a)),
        jget(with_b, "tool_calls"@) == Some(JsonView::Array(calls_b)),
        calls_a.len() > 0,
        calls_b.len() > 0,
        jget(calls_a[0], "function"@) == Some(function_a),
        jget(calls_b[0], "function"@) == Some(function_b),
        jget(function_a, "name"@) == Some(JsonView::Str(name_a)),
        jget(function_b, "name"@) == Some(JsonView::Str(name_b)),
        name_a != name_b,
    ensures
        tool_features(strategy, with_a) != tool_features(strategy, with_b),
{
    if strategy is Hierarchical {
        let ta = crate::voting::tuple_of(tool_features(strategy, with_a));
        let tb = crate::voting::tuple_of(tool_features(strategy, with_b));
        assert(ta[0] != tb[0]);
    }
}

/// With regex patterns, a response is reduced to one answer per pattern:
/// none without a match (or when the chosen group did not take part),
/// otherwise the first match's group 1 (the whole match for a pattern
/// without groups) with its leading and trailing white space removed, so
/// captures that differ only in surrounding white space give the same
/// answer.
pub proof fn law_regex_answers_are_stripped(patterns: Vec<CompiledPattern>, response: JsonView)
    ensures
        ({
            let text = response_text(response);
            let t = crate::voting::tuple_of(projected_content(Projection::Regex(patterns), response));
            &&& projected_content(Projection::Regex(patterns), response) is Tuple
            &&& t.len() == patterns@.len()
            &&& forall|k: int| 0 <= k < t.len() ==> match spec_first_captures(
                patterns@[k].source(),
                patterns@[k].case_insensitive(),
                patterns@[k].dot_all(),
                text,
            ) {
                None => #[trigger] t[k] is None,
                Some(g) => match (if g.len() > 1 {
                    g[1]
                } else {
                    g[0]
                }) {
                    None => t[k] is None,
                    Some(c) => t[k] is Some && crate::text::stripped_from(c, t[k]->0),
                },
            }
        }),
{
    let text = response_text(response);
    let t = crate::voting::tuple_of(projected_content(Projection::Regex(patterns), response));
    assert forall|k: int| 0 <= k < t.len() implies match spec_first_captures(
        patterns@[k].source(),
        patterns@[k].case_insensitive(),
        patterns@[k].dot_all(),
        text,
    ) {
        None => #[trigger] t[k] is None,
        Some(g) => match (if g.len() > 1 {
            g[1]
        } else {
            g[0]
        }) {
            None => t[k] is None,
            Some(c) => t[k] is Some && crate::text::stripped_from(c, t[k]->0),
        },
    } by {
        assert(t[k] == pattern_answer(patterns@[k], text));
        match spec_first_captures(patterns@[k].source(), patterns@[k].case_insensitive(), patterns@[k].dot_all(), text) {
            Some(g) => {
                let m = if g.len() > 1 {
                    g[1]
                } else {
                    g[0]
                };
                if let Some(c) = m {
                    crate::text::lemma_trim_strips(c);
                }
            },
            None => {},
        }
    }
}

/// Why self-consistency could not select a response.
#[derive(Debug, Clone, Copy, PartialEq, Eq)]
pub enum SelectionError {
    /// There were no responses.
    NoResponses,
    /// No response was eligible for the vote.
    NoEligible { total: usize, tool_calls: usize },
    /// The vote itself failed.
    Vote(VoteError),
}

/// What constructing with `patterns` gives: the first pattern's compile
/// error, or the compiled patterns in order; the default projection without
/// patterns.
pub open spec fn compiled_as(patterns: Option<Vec<String>>, r: Result<SelfConsistency, String>) -> bool {
    let ps = match patterns {
        Some(ps) => ps@,
        None => Seq::empty(),
    };
    if ps.len() == 0 {
        r is Ok && r->Ok_0.projection is Default
    } else {
        match first_bad_pattern(ps, ps.len() as int) {
            Some(i) => r is Err && 0 <= i < ps.len() && Some(r->Err_0@) == spec_compile_error(ps[i]@, true, true),
            None => r is Ok && r->Ok_0.projection is Regex && {
                let cs = r->Ok_0.projection->Regex_0@;
                &&& cs.len() == ps.len()
                &&& forall|k: int| 0 <= k < cs.len() ==> #[trigger] cs[k].source() == ps[k]@ && cs[k].case_insensitive()
                    && cs[k].dot_all()
            },
        }
    }
}

/// The message of a selection error.
pub open spec fn selection_message(e: SelectionError) -> Seq<char> {
    match e {
        SelectionError::NoResponses => "No responses to process"@,
        SelectionError::NoEligible { total, tool_calls } => "No eligible responses found after filtering. Total responses: "@
            + crate::text::decimal(total as nat) + ", responses with tool calls: "@ + crate::text::decimal(tool_calls as nat)
            + ". This typically happens when tool_vote is not set but all responses contain tool calls."@,
        SelectionError::Vote(v) => v.spec_message(),
    }
}

impl SelectionError {
    /// The error's message (see [`selection_message`]).
    pub fn message(&self) -> (r: String)
        ensures
            r@ == selection_message(*self),
    {
        match self {
            SelectionError::NoResponses => crate::text::owned("No responses to process"),
            SelectionError::NoEligible { total, tool_calls } => {
                let mut r = crate::text::owned("No eligible responses found after filtering. Total responses: ");
                let t = crate::text::decimal_text(*total as u64);
                r.append(t.as_str());
                r.append(", responses with tool calls: ");
                let c = crate::text::decimal_text(*tool_calls as u64);
                r.append(c.as_str());
                r.append(". This typically happens when tool_vote is not set but all responses contain tool calls.");
                r
            },
            SelectionError::Vote(v) => v.message(),
        }
    }
}

/// The outcome of a vote.
pub struct Selection {
    /// The position of the selected response among all responses.
    pub selected_index: usize,
    /// How often each reduced value occurred among the eligible responses.
    pub counts: VoteCounts,
}

/// The views of the responses.
pub open spec fn responses_view(rs: Seq<JsonValue>) -> Seq<JsonView> {
    jview_items(rs)
}

/// What compiling `patterns` gives: the first pattern's compile error, or
/// the patterns compiled in order, case-insensitive and with `.` matching
/// newlines.
pub open spec fn compiled_patterns(patterns: Seq<String>, r: Result<Projection, String>) -> bool {
    match first_bad_pattern(patterns, patterns.len() as int) {
        Some(i) => r is Err && 0 <= i < patterns.len() && Some(r->Err_0@) == spec_compile_error(patterns[i]@, true, true),
        None => r is Ok && r->Ok_0 is Regex && {
            let cs = r->Ok_0->Regex_0@;
            &&& cs.len() == patterns.len()
            &&& forall|k: int| 0 <= k < cs.len() ==> #[trigger] cs[k].source() == patterns[k]@ && cs[k].case_insensitive()
                && cs[k].dot_all()
        },
    }
}

/// The projection by `patterns` (see [`compiled_patterns`]).
pub fn create_regex_projection_function(patterns: Vec<String>) -> (r: Result<Projection, String>)
    ensures
        compiled_patterns(patterns@, r),
{
    let mut compiled: Vec<CompiledPattern> = Vec::new();
    let mut i: usize = 0;
    while i < patterns.len()
        invariant
            i <= patterns@.len(),
            compiled@.len() == i,
            first_bad_pattern(patterns@, i as int) is None,
            forall|k: int| 0 <= k < i ==> #[trigger] compiled@[k].source() == patterns@[k]@
                && compiled@[k].case_insensitive() && compiled@[k].dot_all(),
        decreases patterns@.len() - i,
    {
        match compile_pattern(patterns[i].as_str(), true, true) {
            Ok(c) => compiled.push(c),
            Err(e) => {
                proof {
                    assert(spec_compile_error(patterns@[i as int]@, true, true) == Some(e@));
                    lemma_first_bad_stays(patterns@, i as int + 1, patterns@.len() as int);
                }
                return Err(e);
            },
        }
        i = i + 1;
    }
    Ok(Projection::Regex(compiled))
}

impl SelfConsistency {
    /// Self-consistency with the given patterns (compiled case-insensitive,
    /// with `.` matching newlines; none or an empty list means the default
    /// projection) and tool-vote strategy; refused with the first pattern's
    /// compile error.
    pub fn with_error_replacement(
        regex_patterns: Option<Vec<String>>,
        tool_vote: Option<ToolVoteStrategy>,
        replace_error_with_message: Option<String>,
    ) -> (r: Result<SelfConsistency, String>)
        ensures
            compiled_as(regex_patterns, r),
            r is Ok ==> r->Ok_0.tool_vote == tool_vote && r->Ok_0.replace_error_with_message == replace_error_with_message,
    {
        let projection = match regex_patterns {
            Some(ps) => {
                if ps.len() > 0 {
                    match create_regex_projection_function(ps) {
                        Ok(p) => p,
                        Err(e) => {
                            return Err(e);
                        },
                    }
                } else {
                    Projection::Default
                }
            },
            None => Projection::Default,
        };
        Ok(SelfConsistency { projection, tool_vote, replace_error_with_message })
    }

    /// Self-consistency without an error replacement.
    pub fn new(regex_patterns: Option<Vec<String>>, tool_vote: Option<ToolVoteStrategy>) -> (r: Result<SelfConsistency, String>)
        ensures
            compiled_as(regex_patterns, r),
            r is Ok ==> r->Ok_0.tool_vote == tool_vote && r->Ok_0.replace_error_with_message is None,
    {
        Self::with_error_replacement(regex_patterns, tool_vote, None)
    }

    /// What a content response is reduced to (see [`projected_content`]).
    pub fn project_content(&self, response: &JsonValue) -> (r: ProjectedValue)
        ensures
            r@ == projected_content(self.projection, jview(*response)),
    {
        let content = extract_content_from_lm_response(response);
        match &self.projection {
            Projection::Default => {
                let t = crate::text::trim_text(content.as_str());
                ProjectedValue::Single(Some(t))
            },
            Projection::Regex(patterns) => {
                let mut results: Vec<Option<String>> = Vec::new();
                let mut i: usize = 0;
                while i < patterns.len()
                    invariant
                        i <= patterns@.len(),
                        results@.len() == i,
                        forall|k: int| 0 <= k < i ==> crate::voting::opt_view(#[trigger] results@[k]) == pattern_answer(patterns@[k], content@),
                    decreases patterns@.len() - i,
                {
                    let answer = match first_captures(&patterns[i], content.as_str()) {
                        Some(g) => {
                            let m = if g.len() > 1 { &g[1] } else { &g[0] };
                            proof {
                                assert(crate::pattern::groups_view(g@)[if g@.len() > 1 { 1int } else { 0int }] == crate::voting::opt_view(*m));
                            }
                            match m {
                                Some(s) => Some(crate::text::trim_text(s.as_str())),
                                None => None,
                            }
                        },
                        None => None,
                    };
                    results.push(answer);
                    i = i + 1;
                }
                let r = ProjectedValue::Tuple(results);
                assert(crate::voting::opts_view(results@) =~= patterns@.map_values(|p: CompiledPattern| pattern_answer(p, content@)));
                r
            },
        }
    }

    /// What a tool-call response is reduced to under the configured
    /// strategy; no answer without a strategy.
    pub fn extract_tool_call_features(&self, response: &JsonValue) -> (r: ProjectedValue)
        ensures
            r@ == match self.tool_vote {
                Some(s) => tool_features(s, jview(*response)),
                None => ProjectedView::Single(None),
            },
    {
        match &self.tool_vote {
            Some(s) => Self::tool_call_features(s, response),
            None => ProjectedValue::Single(None),
        }
    }

    /// What a tool-call response is reduced to under `strategy` (see
    /// [`tool_features`]).
    pub fn tool_call_features(strategy: &ToolVoteStrategy, response: &JsonValue) -> (r: ProjectedValue)
        ensures
            r@ == tool_features(*strategy, jview(*response)),
    {
        let first = match get_member(response, "tool_calls") {
            Some(JsonValue::Array(tcs)) => {
                proof {
                    crate::json::lemma_jview_items(tcs@);
                }
                if tcs.len() > 0 {
                    Some(&tcs[0])
                } else {
                    None
                }
            },
            _ => None,
        };
        let tc = match first {
            Some(tc) => tc,
            None => {
                return match strategy {
                    ToolVoteStrategy::Name => ProjectedValue::Single(None),
                    _ => {
                        let r = ProjectedValue::Tuple(vec![None, None]);
                        assert(crate::voting::opts_view(seq![None::<String>, None::<String>]) =~= seq![None::<Seq<char>>, None::<Seq<char>>]);
                        r
                    },
                };
            },
        };
        let f = get_member(tc, "function");
        let name: Option<String> = match f {
            Some(fv) => match get_member(fv, "name") {
                Some(JsonValue::Str(s)) => Some(s.clone()),
                _ => None,
            },
            None => None,
        };
        let raw = match f {
            Some(fv) => get_member(fv, "arguments"),
            None => None,
        };
        let parsed: JsonValue = match raw {
            Some(JsonValue::Str(s)) => match crate::responses::parse_json_text(s.as_str()) {
                Some(v) => v,
                None => JsonValue::Object(Vec::new()),
            },
            Some(JsonValue::Object(ms)) => JsonValue::Object(crate::json::copy_members(ms)),
            _ => JsonValue::Object(Vec::new()),
        };
        proof {
            assert(jview_members(Seq::<(String, JsonValue)>::empty()) =~= Seq::<(Seq<char>, JsonView)>::empty());
        }
        let no_exclusions: Vec<String> = Vec::new();
        let exclude = match strategy {
            ToolVoteStrategy::Args { exclude } => exclude,
            ToolVoteStrategy::Hierarchical { exclude } => exclude,
            ToolVoteStrategy::Name => &no_exclusions,
        };
        let filtered = filter_args(&parsed, exclude);
        match strategy {
            ToolVoteStrategy::Name => ProjectedValue::Single(name),
            ToolVoteStrategy::Args { .. } => {
                let pairs = argument_pair_texts(&filtered);
                ProjectedValue::Tuple(pairs)
            },
            ToolVoteStrategy::Hierarchical { .. } => {
                let c = canonical_json(&filtered);
                let r = ProjectedValue::Tuple(vec![name, Some(c)]);
                assert(crate::voting::opts_view(seq![name, Some(c)]) =~= seq![crate::voting::opt_view(name), Some(c@)]);
                r
            },
        }
    }

    /// Selects a response by vote (see [`eligible_projection`]): the
    /// selected response is eligible, its reduction wins the vote
    /// (hierarchically when the first reduction is a tuple), and the counts
    /// are those of the eligible reductions.
    pub fn process_responses(&self, responses: &Vec<JsonValue>) -> (r: Result<Selection, SelectionError>)
        ensures
            vote_outcome(*self, None, responses@, r),
    {
        self.select_with(responses, None)
    }

    /// Selects a response by vote, content responses reduced by the
    /// caller's reductions `custom` (one per response) in place of the
    /// projection.
    pub fn process_responses_with(&self, responses: &Vec<JsonValue>, custom: &Vec<ProjectedValue>) -> (r: Result<Selection, SelectionError>)
        requires
            custom@.len() == responses@.len(),
        ensures
            vote_outcome(*self, Some(views(custom@)), responses@, r),
    {
        self.select_with(responses, Some(custom))
    }

    fn select_with(&self, responses: &Vec<JsonValue>, custom: Option<&Vec<ProjectedValue>>) -> (r: Result<Selection, SelectionError>)
        requires
            custom matches Some(c) ==> c@.len() == responses@.len(),
        ensures
            vote_outcome(*self, custom_view(custom), responses@, r),
    {
        let ghost rs = responses_view(responses@);
        proof {
            crate::json::lemma_jview_items(responses@);
        }
        if responses.len() == 0 {
            return Err(SelectionError::NoResponses);
        }
        let mut tool_call_count: usize = 0;
        let mut i: usize = 0;
        while i < responses.len()
            invariant
                i <= responses@.len(),
                rs == responses_view(responses@),
                rs.len() == responses@.len(),
                forall|j: int| 0 <= j < responses@.len() ==> #[trigger] rs[j] == jview(responses@[j]),
                tool_call_count == call_count(rs.take(i as int)),
                tool_call_count <= i,
            decreases responses@.len() - i,
        {
            assert(rs.take(i + 1).drop_last() =~= rs.take(i as int));
            if has_tool_calls(&responses[i]) {
                tool_call_count = tool_call_count + 1;
            }
            i = i + 1;
        }
        assert(rs.take(responses@.len() as int) =~= rs);
        let required = responses.len() / 2 + responses.len() % 2;
        assert(required == (rs.len() + 1) / 2);
        let use_tools = tool_call_count >= required && self.tool_vote.is_some();
        let mut eligible: Vec<usize> = Vec::new();
        let mut projected: Vec<ProjectedValue> = Vec::new();
        let mut i: usize = 0;
        while i < responses.len()
            invariant
                i <= responses@.len(),
                rs == responses_view(responses@),
                rs.len() == responses@.len(),
                forall|j: int| 0 <= j < responses@.len() ==> #[trigger] rs[j] == jview(responses@[j]),
                use_tools == votes_on_tools(*self, rs),
                eligible@.map_values(|x: usize| x as int) == positions_with(rs.take(i as int), use_tools),
                projected@.len() == eligible@.len(),
                forall|k: int| 0 <= k < eligible@.len() ==> (#[trigger] eligible@[k]) < responses@.len(),
                custom matches Some(c) ==> c@.len() == responses@.len(),
                forall|k: int| 0 <= k < projected@.len() ==> (#[trigger] projected@[k])@ == (if use_tools {
                    tool_features(self.tool_vote->0, rs[eligible@[k] as int])
                } else {
                    content_reduction(*self, custom_view(custom), rs, eligible@[k] as int)
                }),
            decreases responses@.len() - i,
        {
            assert(rs.take(i + 1).drop_last() =~= rs.take(i as int));
            let ghost before = eligible@.map_values(|x: usize| x as int);
            if has_tool_calls(&responses[i]) == use_tools {
                let v = if use_tools {
                    match &self.tool_vote {
                        Some(s) => Self::tool_call_features(s, &responses[i]),
                        None => {
                            assert(false);
                            ProjectedValue::Single(None)
                        },
                    }
                } else {
                    match custom {
                        Some(c) => {
                            assert(views(c@)[i as int] == c@[i as int]@);
                            crate::voting::copy_projected(&c[i])
                        },
                        None => self.project_content(&responses[i]),
                    }
                };
                eligible.push(i);
                projected.push(v);
                assert(eligible@.map_values(|x: usize| x as int) =~= before.push(i as int));
            }
            i = i + 1;
        }
        assert(rs.take(responses@.len() as int) =~= rs);
        let ghost el = eligible_positions(*self, rs);
        let ghost pv = eligible_projection(*self, custom_view(custom), rs);
        assert(views(projected@) =~= pv) by {
            assert forall|k: int| 0 <= k < projected@.len() implies views(projected@)[k] == pv[k] by {
                assert(el[k] == eligible@[k] as int);
            }
        }
        if eligible.len() == 0 {
            return Err(SelectionError::NoEligible { total: responses.len(), tool_calls: tool_call_count });
        }
        let hierarchical = match &projected[0] {
            ProjectedValue::Tuple(_) => true,
            ProjectedValue::Single(_) => false,
        };
        assert(hierarchical == (pv[0] is Tuple));
        if hierarchical {
            match select_hierarchical_most_common_or_random(&projected) {
                Ok((counts, k)) => {
                    let selected_index = eligible[k];
                    assert(el[k as int] == selected_index as int);
                    Ok(Selection { selected_index, counts })
                },
                Err(e) => {
                    proof {
                        if e is Empty {
                            assert(false);
                        }
                    }
                    Err(SelectionError::Vote(e))
                },
            }
        } else {
            let (counts, k) = select_most_common_or_random(&projected);
            let selected_index = eligible[k];
            assert(el[k as int] == selected_index as int);
            Ok(Selection { selected_index, counts })
        }
    }
}

/// The first `n` patterns compile, the pattern at `n` does not: that
/// pattern is the first bad one, whatever follows.
proof fn lemma_first_bad_stays(ps: Seq<String>, n: int, m: int)
    requires
        1 <= n <= m <= ps.len(),
        first_bad_pattern(ps, n - 1) is None,
        spec_compile_error(ps[n - 1]@, true, true) is Some,
    ensures
        first_bad_pattern(ps, m) == Some(n - 1),
    decreases m - n,
{
    if m > n {
        lemma_first_bad_stays(ps, n, m - 1);
    }
}

/// The sorted `key=value` texts of an object's members (see [`argument_pairs`]).
fn argument_pair_texts(args: &JsonValue) -> (r: Vec<Option<String>>)
    ensures
        crate::voting::opts_view(r@) == argument_pairs(jview(*args)),
{
    match args {
        JsonValue::Object(members) => {
            let mut kts: Vec<(String, String)> = Vec::new();
            let mut i: usize = 0;
            while i < members.len()
                invariant
                    i <= members@.len(),
                    crate::canonical::pairs_view(kts@) == keyed_texts(jview_members(members@.take(i as int))),
                decreases members@.len() - i,
            {
                let t = canonical_json(&members[i].1);
                let ghost before = crate::canonical::pairs_view(kts@);
                kts.push((members[i].0.clone(), t));
                proof {
                    assert(members@.take(i + 1).drop_last() =~= members@.take(i as int));
                    assert(jview_members(members@.take(i + 1)).drop_last() =~= jview_members(members@.take(i as int)));
                    assert(crate::canonical::pairs_view(kts@) =~= before.push((members@[i as int].0@, t@)));
                }
                i = i + 1;
            }
            assert(members@.take(members@.len() as int) =~= members@);
            let sorted = crate::canonical::sort_pairs(kts);
            let ghost sv = crate::canonical::pairs_view(sorted@);
            let mut out: Vec<Option<String>> = Vec::new();
            let mut j: usize = 0;
            while j < sorted.len()
                invariant
                    j <= sorted@.len(),
                    sv == crate::canonical::pairs_view(sorted@),
                    out@.len() == j,
                    forall|k: int| 0 <= k < j ==> crate::voting::opt_view(#[trigger] out@[k]) == Some(sv[k].0 + "="@ + sv[k].1),
                decreases sorted@.len() - j,
            {
                let mut t = sorted[j].0.clone();
                t.append("=");
                t.append(sorted[j].1.as_str());
                out.push(Some(t));
                j = j + 1;
            }
            assert(crate::voting::opts_view(out@) =~= sv.map_values(|kt: (Seq<char>, Seq<char>)| Some(kt.0 + "="@ + kt.1)));
            out
        },
        _ => {
            let out: Vec<Option<String>> = Vec::new();
            assert(crate::voting::opts_view(out@) =~= Seq::<Option<Seq<char>>>::empty());
            out
        },
    }
}

/// What `format!("{:?}", ..)` writes for a list of optional strings.
pub uninterp spec fn spec_debug_list(items: Seq<Option<Seq<char>>>) -> Seq<char>;

/// std's `Debug` formatting of a list of optional strings. Claims: the
/// text is the one named by `spec_debug_list`.
#[verifier::external_body]
fn debug_list(items: &Vec<Option<String>>) -> (r: String)
    ensures
        r@ == spec_debug_list(crate::voting::opts_view(items@)),
{
    format!("{:?}", items)
}

/// The key a vote count is reported under: the answer itself, `null` for no
/// answer, the debug form of a tuple.
pub open spec fn count_key(v: ProjectedView) -> Seq<char> {
    match v {
        ProjectedView::Single(Some(s)) => s,
        ProjectedView::Single(None) => "null"@,
        ProjectedView::Tuple(items) => spec_debug_list(items),
    }
}

/// The reported counts: each key set to its count in turn.
pub open spec fn count_members(keys: Seq<ProjectedView>, counts: Seq<usize>, n: int) -> Seq<(Seq<char>, JsonView)>
    decreases n,
{
    if n <= 0 {
        Seq::empty()
    } else {
        crate::json::jinsert(
            count_members(keys, counts, n - 1),
            count_key(keys[n - 1]),
            JsonView::Number(crate::text::decimal(counts[n - 1] as nat)),
        )
    }
}

fn count_key_text(v: &ProjectedValue) -> (r: String)
    ensures
        r@ == count_key(v@),
{
    match v {
        ProjectedValue::Single(Some(s)) => s.clone(),
        ProjectedValue::Single(None) => crate::text::owned("null"),
        ProjectedValue::Tuple(items) => debug_list(items),
    }
}

/// The vote counts as a JSON object (see [`count_members`]).
pub fn counts_to_json(counts: &VoteCounts) -> (r: JsonValue)
    ensures
        jview(r) == JsonView::Object(count_members(counts.key_views(), counts.count_seq(), counts.key_views().len() as int)),
{
    let keys = counts.keys();
    let values = counts.counts();
    let mut ms: Vec<(String, JsonValue)> = Vec::new();
    let mut i: usize = 0;
    while i < keys.len()
        invariant
            i <= keys@.len(),
            values@.len() == keys@.len(),
            views(keys@) == counts.key_views(),
            values@ == counts.count_seq(),
            jview_members(ms@) == count_members(counts.key_views(), counts.count_seq(), i as int),
        decreases keys@.len() - i,
    {
        let k = count_key_text(&keys[i]);
        assert(views(keys@)[i as int] == keys@[i as int]@);
        let n = crate::text::decimal_text(values[i] as u64);
        crate::json::insert_member(&mut ms, k, JsonValue::Number(n));
        i = i + 1;
    }
    JsonValue::Object(ms)
}

/// The metadata of a vote.
pub open spec fn vote_metadata(responses: Seq<JsonView>, counts: VoteCounts, selected: usize) -> JsonView {
    JsonView::Object(seq![
        ("algorithm"@, JsonView::Str("self-consistency"@)),
        ("all_responses"@, JsonView::Array(responses)),
        ("response_counts"@, JsonView::Object(count_members(counts.key_views(), counts.count_seq(), counts.key_views().len() as int))),
        ("selected_index"@, JsonView::Number(crate::text::decimal(selected as nat))),
    ])
}

/// What a vote answers: the selected response, with the metadata (all
/// responses, the counts and the selected position) unless only the
/// response is asked for.
pub fn vote_output(responses: &Vec<JsonValue>, selection: &Selection, return_response_only: bool) -> (r: crate::api::AlgorithmOutput)
    requires
        selection.selected_index < responses@.len(),
    ensures
        match r {
            crate::api::AlgorithmOutput::ResponseOnly(s) => return_response_only && jview(s) == jview(
                responses@[selection.selected_index as int],
            ),
            crate::api::AlgorithmOutput::Full { selected, metadata } => !return_response_only && jview(selected) == jview(
                responses@[selection.selected_index as int],
            ) && jview(metadata) == vote_metadata(responses_view(responses@), selection.counts, selection.selected_index),
        },
{
    let selected = crate::json::copy_json(&responses[selection.selected_index]);
    if return_response_only {
        return crate::api::AlgorithmOutput::ResponseOnly(selected);
    }
    let mut all: Vec<JsonValue> = Vec::new();
    let mut i: usize = 0;
    while i < responses.len()
        invariant
            i <= responses@.len(),
            jview_items(all@) == jview_items(responses@.take(i as int)),
        decreases responses@.len() - i,
    {
        let c = crate::json::copy_json(&responses[i]);
        let ghost before = all@;
        all.push(c);
        proof {
            assert(all@.drop_last() =~= before);
            assert(responses@.take(i + 1).drop_last() =~= responses@.take(i as int));
        }
        i = i + 1;
    }
    assert(responses@.take(responses@.len() as int) =~= responses@);
    let mut ms: Vec<(String, JsonValue)> = Vec::new();
    crate::client::push_member(&mut ms, "algorithm", JsonValue::Str(crate::text::owned("self-consistency")));
    crate::client::push_member(&mut ms, "all_responses", JsonValue::Array(all));
    crate::client::push_member(&mut ms, "response_counts", counts_to_json(&selection.counts));
    crate::client::push_member(
        &mut ms,
        "selected_index",
        JsonValue::Number(crate::text::decimal_text(selection.selected_index as u64)),
    );
    proof {
        assert(jview_members(ms@) =~= match vote_metadata(responses_view(responses@), selection.counts, selection.selected_index) {
            JsonView::Object(x) => x,
            _ => Seq::empty(),
        });
    }
    crate::api::AlgorithmOutput::Full { selected, metadata: JsonValue::Object(ms) }
}

} // verus!
