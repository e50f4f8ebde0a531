//! A language model as judge: the prompts it is given, and what is read
//! back from its answers (the score text, or the ranking of the responses).

use vstd::prelude::*;
use crate::messages::{content_text, message_view, messages_view, role_line, ChatMessage, MessageView};
use crate::pattern::{all_captures, compile_pattern, first_captures, spec_all_captures, spec_compile_error, spec_first_captures};
use crate::text::{decimal, spec_trim, strings_view};

verus! {

/// How the judge scores responses.
#[derive(Debug, Clone, Copy, PartialEq, Eq, Structural)]
pub enum JudgeMode {
    /// Each response on its own.
    Pointwise,
    /// All responses together, ranked.
    Groupwise,
}

/// An explicit score, `Score: <number>` (either case); group 1 is the number.
pub const SCORE_PATTERN: &'static str = "[Ss]core:\\s*(\\d+\\.?\\d*)";

/// A bare number that may be a score.
pub const NUMBER_PATTERN: &'static str = "\\b(0\\.\\d+|1\\.0|0|1)\\b";

/// A ranking, `Ranking: [a, b, ...]` (either case); group 1 is the list.
pub const RANKING_PATTERN: &'static str = "[Rr]anking:\\s*\\[([^\\]]+)\\]";

/// The conversation as the judge reads it: one `role: text` line per message.
pub open spec fn conversation_of(ms: Seq<MessageView>) -> Seq<char>
    decreases ms.len(),
{
    if ms.len() == 0 {
        Seq::empty()
    } else {
        conversation_of(ms.drop_last()) + role_line(ms.last()) + "\n"@
    }
}

/// The conversation as the judge reads it (see [`conversation_of`]).
pub fn conversation_text(messages: &Vec<ChatMessage>) -> (r: String)
    ensures
        r@ == conversation_of(messages_view(messages@)),
{
    let ghost mv = messages_view(messages@);
    let mut r = String::new();
    let mut i: usize = 0;
    while i < messages.len()
        invariant
            i <= messages@.len(),
            mv == messages_view(messages@),
            r@ == conversation_of(mv.take(i as int)),
        decreases messages@.len() - i,
    {
        assert(mv.take(i + 1).drop_last() =~= mv.take(i as int));
        assert(mv.take(i + 1).last() == message_view(messages@[i as int]));
        let text = messages[i].extract_text_content();
        r.append(messages[i].role.as_str());
        r.append(": ");
        r.append(text.as_str());
        r.append("\n");
        i = i + 1;
    }
    assert(mv.take(messages@.len() as int) =~= mv);
    r
}

/// The instructions closing the pointwise prompt (the numbers are written
/// in pieces).
pub open spec fn pointwise_instructions() -> Seq<char> {
    "\n\n## Instructions\nEvaluate the response based on the criterion above.\nProvide your reasoning, then give a score from 0"@
        + "."@ + "0 to 1"@ + "."@ + "0"@
        + ".\nYou MUST end your response with exactly: Score: X.X\nwhere X.X is a decimal number between 0"@
        + "."@ + "0 and 1"@ + "."@ + "0"@ + "."@
}

/// The pointwise prompt: the criterion, the conversation and the response,
/// asking for a score between zero and one.
pub open spec fn pointwise_prompt(criterion: Seq<char>, ms: Seq<MessageView>, response: Seq<char>) -> Seq<char> {
    "You are an expert judge evaluating the quality of an AI assistant's response.\n\n## Evaluation Criterion\n"@
        + criterion + "\n\n## Conversation\n"@ + conversation_of(ms) + "## Response to Evaluate\n"@ + response
        + pointwise_instructions()
}

fn pointwise_instructions_text() -> (r: String)
    ensures
        r@ == pointwise_instructions(),
{
    let mut r = crate::text::owned(
        "\n\n## Instructions\nEvaluate the response based on the criterion above.\nProvide your reasoning, then give a score from 0",
    );
    r.append(".");
    r.append("0 to 1");
    r.append(".");
    r.append("0");
    r.append(".\nYou MUST end your response with exactly: Score: X.X\nwhere X.X is a decimal number between 0");
    r.append(".");
    r.append("0 and 1");
    r.append(".");
    r.append("0");
    r.append(".");
    r
}

/// The judge's messages for one response: a single user message holding
/// the pointwise prompt.
pub fn build_judge_prompt(criterion: &str, prompt_messages: &Vec<ChatMessage>, response: &str) -> (r: Vec<ChatMessage>)
    ensures
        messages_view(r@) == seq![crate::messages::user_message_view(pointwise_prompt(criterion@, messages_view(prompt_messages@), response@))],
{
    let mut p = crate::text::owned(
        "You are an expert judge evaluating the quality of an AI assistant's response.\n\n## Evaluation Criterion\n",
    );
    p.append(criterion);
    p.append("\n\n## Conversation\n");
    let conv = conversation_text(prompt_messages);
    p.append(conv.as_str());
    p.append("## Response to Evaluate\n");
    p.append(response);
    let tail = pointwise_instructions_text();
    p.append(tail.as_str());
    let m = ChatMessage::user(p);
    let r = vec![m];
    assert(messages_view(r@) =~= seq![message_view(m)]);
    r
}

/// The responses as the judge reads them: `### Response k` and the text,
/// numbered from one.
pub open spec fn numbered_responses(rs: Seq<Seq<char>>) -> Seq<char>
    decreases rs.len(),
{
    if rs.len() == 0 {
        Seq::empty()
    } else {
        numbered_responses(rs.drop_last()) + "### Response "@ + decimal(rs.len()) + "\n"@ + rs.last() + "\n\n"@
    }
}

/// The groupwise prompt: the criterion, the conversation and all numbered
/// responses, asking for a ranking from best to worst.
pub open spec fn groupwise_prompt(criterion: Seq<char>, ms: Seq<MessageView>, rs: Seq<Seq<char>>) -> Seq<char> {
    "You are an expert judge evaluating the quality of AI assistant responses.\n\n## Evaluation Criterion\n"@ + criterion
        + "\n\n## Conversation\n"@ + conversation_of(ms) + "## Responses to Rank\n"@ + numbered_responses(rs)
        + "## Instructions\nCompare all "@ + decimal(rs.len())
        + " responses based on the criterion above.\nRank them from best to worst.\nYou MUST end your response with a line in this exact format:\nRanking: [best_number, ..., worst_number]\nwhere each number is the response number (1-indexed).\nFor example, if Response 3 is best and Response 1 is worst out of 3:\nRanking: [3, 2, 1]"@
}

/// The judge's messages for ranking responses: a single user message
/// holding the groupwise prompt.
pub fn build_groupwise_prompt(criterion: &str, prompt_messages: &Vec<ChatMessage>, responses: &Vec<String>) -> (r: Vec<ChatMessage>)
    requires
        responses@.len() < usize::MAX,
    ensures
        messages_view(r@) == seq![crate::messages::user_message_view(groupwise_prompt(criterion@, messages_view(prompt_messages@), strings_view(responses@)))],
{
    let ghost rv = strings_view(responses@);
    let mut listing = String::new();
    let mut i: usize = 0;
    while i < responses.len()
        invariant
            i <= responses@.len(),
            responses@.len() < usize::MAX,
            rv == strings_view(responses@),
            listing@ == numbered_responses(rv.take(i as int)),
        decreases responses@.len() - i,
    {
        assert(rv.take(i + 1).drop_last() =~= rv.take(i as int));
        assert(rv.take(i + 1).last() == responses@[i as int]@);
        listing.append("### Response ");
        let k = crate::text::decimal_text((i + 1) as u64);
        listing.append(k.as_str());
        listing.append("\n");
        listing.append(responses[i].as_str());
        listing.append("\n\n");
        i = i + 1;
    }
    assert(rv.take(responses@.len() as int) =~= rv);
    let mut p = crate::text::owned(
        "You are an expert judge evaluating the quality of AI assistant responses.\n\n## Evaluation Criterion\n",
    );
    p.append(criterion);
    p.append("\n\n## Conversation\n");
    let conv = conversation_text(prompt_messages);
    p.append(conv.as_str());
    p.append("## Responses to Rank\n");
    p.append(listing.as_str());
    p.append("## Instructions\nCompare all ");
    let n = crate::text::decimal_text(responses.len() as u64);
    p.append(n.as_str());
    p.append(
        " responses based on the criterion above.\nRank them from best to worst.\nYou MUST end your response with a line in this exact format:\nRanking: [best_number, ..., worst_number]\nwhere each number is the response number (1-indexed).\nFor example, if Response 3 is best and Response 1 is worst out of 3:\nRanking: [3, 2, 1]",
    );
    let m = ChatMessage::user(p);
    let r = vec![m];
    assert(messages_view(r@) =~= seq![message_view(m)]);
    r
}

/// The texts a score is read from: the number after an explicit `Score:`
/// (when the pattern matches with a number), and every bare number that may
/// be a score, in order.
pub struct ScoreCandidates {
    pub explicit: Option<String>,
    pub numbers: Vec<String>,
}

/// The number after the first explicit score, if any.
pub open spec fn explicit_score(text: Seq<char>) -> Option<Seq<char>> {
    if spec_compile_error(SCORE_PATTERN@, false, false) is None {
        match spec_first_captures(SCORE_PATTERN@, false, false, text) {
            Some(g) => if g.len() > 1 {
                g[1]
            } else {
                None
            },
            None => None,
        }
    } else {
        None
    }
}

/// The whole matches of each capture list, in order.
pub open spec fn whole_matches(caps: Seq<Seq<Option<Seq<char>>>>) -> Seq<Seq<char>>
    decreases caps.len(),
{
    if caps.len() == 0 {
        Seq::empty()
    } else if caps.last().len() > 0 && caps.last()[0] is Some {
        whole_matches(caps.drop_last()).push(caps.last()[0]->0)
    } else {
        whole_matches(caps.drop_last())
    }
}

/// The bare numbers that may be scores, in order.
pub open spec fn bare_numbers(text: Seq<char>) -> Seq<Seq<char>> {
    if spec_compile_error(NUMBER_PATTERN@, false, false) is None {
        whole_matches(spec_all_captures(NUMBER_PATTERN@, false, false, text))
    } else {
        Seq::empty()
    }
}

/// The texts a judge's score is read from (see [`explicit_score`] and
/// [`bare_numbers`]).
pub fn score_candidates(text: &str) -> (r: ScoreCandidates)
    ensures
        crate::voting::opt_view(r.explicit) == explicit_score(text@),
        strings_view(r.numbers@) == bare_numbers(text@),
{
    let explicit = match compile_pattern(SCORE_PATTERN, false, false) {
        Ok(re) => match first_captures(&re, text) {
            Some(g) => if g.len() > 1 {
                proof {
                    assert(crate::pattern::groups_view(g@)[1] == crate::voting::opt_view(g@[1]));
                }
                crate::voting::copy_opt(&g[1])
            } else {
                None
            },
            None => None,
        },
        Err(_) => None,
    };
    let mut numbers: Vec<String> = Vec::new();
    match compile_pattern(NUMBER_PATTERN, false, false) {
        Ok(re) => {
            let caps = all_captures(&re, text);
            let ghost cv = caps@.map_values(|g: Vec<Option<String>>| crate::pattern::groups_view(g@));
            let mut i: usize = 0;
            while i < caps.len()
                invariant
                    i <= caps@.len(),
                    cv == caps@.map_values(|g: Vec<Option<String>>| crate::pattern::groups_view(g@)),
                    strings_view(numbers@) == whole_matches(cv.take(i as int)),
                decreases caps@.len() - i,
            {
                assert(cv.take(i + 1).drop_last() =~= cv.take(i as int));
                assert(cv.take(i + 1).last() == crate::pattern::groups_view(caps@[i as int]@));
                let g = &caps[i];
                if g.len() > 0 {
                    match &g[0] {
                        Some(m) => {
                            let ghost before = strings_view(numbers@);
                            numbers.push(m.clone());
                            assert(strings_view(numbers@) =~= before.push(m@));
                        },
                        None => {},
                    }
                }
                i = i + 1;
            }
            assert(cv.take(caps@.len() as int) =~= cv);
        },
        Err(_) => {
            assert(strings_view(numbers@) =~= Seq::<Seq<char>>::empty());
        },
    }
    ScoreCandidates { explicit, numbers }
}

/// The pieces of `s` between commas.
pub open spec fn split_commas(s: Seq<char>) -> Seq<Seq<char>>
    decreases s.len(),
{
    if s.len() == 0 {
        seq![Seq::empty()]
    } else {
        let prev = split_commas(s.drop_last());
        if s.last() == ',' {
            prev.push(Seq::empty())
        } else {
            prev.update(prev.len() - 1, prev.last().push(s.last()))
        }
    }
}

/// What `str::parse::<usize>` gives: an optional `+`, then one or more
/// digits whose value fits.
pub open spec fn parsed_usize(s: Seq<char>) -> Option<usize> {
    let d = if s.len() > 0 && s[0] == '+' {
        s.skip(1)
    } else {
        s
    };
    if d.len() > 0 && crate::gateway::all_digits(d) && crate::gateway::digits_value(d) <= usize::MAX {
        Some(crate::gateway::digits_value(d) as usize)
    } else {
        None
    }
}

/// The numbers of the list, each piece trimmed, the pieces that are not
/// numbers left out.
pub open spec fn listed_numbers(pieces: Seq<Seq<char>>) -> Seq<usize>
    decreases pieces.len(),
{
    if pieces.len() == 0 {
        Seq::empty()
    } else {
        match parsed_usize(spec_trim(pieces.last())) {
            Some(k) => listed_numbers(pieces.drop_last()).push(k),
            None => listed_numbers(pieces.drop_last()),
        }
    }
}

/// The numbers the first ranking lists, if any.
pub open spec fn ranking_list(text: Seq<char>) -> Option<Seq<usize>> {
    if spec_compile_error(RANKING_PATTERN@, false, false) is None {
        match spec_first_captures(RANKING_PATTERN@, false, false, text) {
            Some(g) => if g.len() > 1 && g[1] is Some {
                Some(listed_numbers(split_commas(g[1]->0)))
            } else {
                None
            },
            None => None,
        }
    } else {
        None
    }
}

/// The place (0 for the best) of each of `n` responses after the ranked
/// positions `ranked[0..k]`: a response listed more than once keeps its
/// last place; numbers outside 1 to `n` are ignored.
pub open spec fn places_after(ranked: Seq<usize>, n: nat, k: int) -> Seq<Option<usize>>
    decreases k,
{
    if k <= 0 {
        Seq::new(n, |j: int| None)
    } else {
        let prev = places_after(ranked, n, k - 1);
        let idx = ranked[k - 1];
        if 1 <= idx <= n {
            prev.update(idx - 1, Some((k - 1) as usize))
        } else {
            prev
        }
    }
}

/// The ranking read from a judge's answer for `n` responses: when the
/// answer ranks between one and `n` numbers, each response's place (none
/// when unranked) and how many were ranked; otherwise none.
pub open spec fn ranking_of(text: Seq<char>, n: nat) -> Option<(Seq<Option<usize>>, usize)> {
    match ranking_list(text) {
        Some(list) => if 1 <= list.len() <= n {
            Some((places_after(list, n, list.len() as int), list.len() as usize))
        } else {
            None
        },
        None => None,
    }
}

/// A piece of the list parsed as a number (see [`parsed_usize`]).
fn parse_usize(s: &str) -> (r: Option<usize>)
    ensures
        r == parsed_usize(s@),
{
    let cs = crate::text::chars_of(s);
    let start: usize = if cs.len() > 0 && cs[0] == '+' { 1 } else { 0 };
    let ghost d = if s@.len() > 0 && s@[0] == '+' {
        s@.skip(1)
    } else {
        s@
    };
    assert(d =~= s@.skip(start as int));
    if cs.len() <= start {
        return None;
    }
    let mut value: usize = 0;
    let mut i: usize = start;
    while i < cs.len()
        invariant
            start <= i <= cs@.len(),
            cs@ == s@,
            d == s@.skip(start as int),
            d == (if s@.len() > 0 && s@[0] == '+' {
                s@.skip(1)
            } else {
                s@
            }),
            d.len() == cs@.len() - start,
            crate::gateway::all_digits(d.take(i - start)),
            value as int == crate::gateway::digits_value(d.take(i - start)),
        decreases cs@.len() - i,
    {
        let c = cs[i];
        assert(d.take(i + 1 - start).drop_last() =~= d.take(i - start));
        assert(d.take(i + 1 - start).last() == c);
        if c < '0' || c > '9' {
            assert(!crate::gateway::all_digits(d)) by {
                assert(d[i - start] == c);
            }
            return None;
        }
        let dv: usize = ((c as u32) - ('0' as u32)) as usize;
        assert(crate::gateway::all_digits(d.take(i + 1 - start)));
        assert(crate::gateway::digits_value(d.take(i + 1 - start)) == value * 10 + dv);
        if value > (usize::MAX - dv) / 10 {
            proof {
                assert(value * 10 + dv > usize::MAX) by (nonlinear_arith)
                    requires
                        value > (usize::MAX - dv) / 10,
                        dv <= 9,
                ;
                if crate::gateway::all_digits(d) {
                    crate::gateway::lemma_digits_grow(d, i + 1 - start);
                }
            }
            return None;
        }
        assert(value * 10 + dv <= usize::MAX) by (nonlinear_arith)
            requires
                value <= (usize::MAX - dv) / 10,
                dv <= 9,
        ;
        value = value * 10 + dv;
        i = i + 1;
    }
    assert(d.take(d.len() as int) =~= d);
    Some(value)
}

/// The pieces of `s` between commas (see [`split_commas`]).
fn comma_pieces(s: &str) -> (r: Vec<String>)
    ensures
        strings_view(r@) == split_commas(s@),
{
    let cs = crate::text::chars_of(s);
    let mut pieces: Vec<String> = Vec::new();
    let mut cur: Vec<char> = Vec::new();
    let mut i: usize = 0;
    while i < cs.len()
        invariant
            i <= cs@.len(),
            cs@ == s@,
            strings_view(pieces@).push(cur@) == split_commas(s@.take(i as int)),
        decreases cs@.len() - i,
    {
        assert(s@.take(i + 1).drop_last() =~= s@.take(i as int));
        assert(s@.take(i + 1).last() == cs@[i as int]);
        if cs[i] == ',' {
            let piece = crate::text::string_of_chars(&cur);
            let ghost before = strings_view(pieces@);
            pieces.push(piece);
            cur = Vec::new();
            assert(strings_view(pieces@) =~= before.push(piece@));
            assert(strings_view(pieces@).push(cur@) =~= before.push(piece@).push(Seq::empty()));
        } else {
            let ghost before = strings_view(pieces@);
            let ghost old_cur = cur@;
            cur.push(cs[i]);
            assert(strings_view(pieces@).push(cur@) =~= before.push(old_cur).update(before.len() as int, old_cur.push(cs@[i as int])));
        }
        i = i + 1;
    }
    let ghost before = strings_view(pieces@);
    let last = crate::text::string_of_chars(&cur);
    pieces.push(last);
    assert(s@.take(cs@.len() as int) =~= s@);
    assert(strings_view(pieces@) =~= before.push(cur@));
    pieces
}

/// A text that reads as a number: ASCII digits and points only.
pub open spec fn plain_decimal(d: Seq<char>) -> bool {
    d.len() > 0 && forall|i: int| 0 <= i < d.len() ==> ('0' <= #[trigger] d[i] && d[i] <= '9') || d[i] == '.'
}

/// The first text that reads as a number, if any.
pub open spec fn first_plain(ns: Seq<Seq<char>>) -> Option<Seq<char>>
    decreases ns.len(),
{
    if ns.len() == 0 {
        None
    } else if plain_decimal(ns[0]) {
        Some(ns[0])
    } else {
        first_plain(ns.skip(1))
    }
}

/// Where a judge's score is read from: the explicit score when it reads as
/// a number (flagged, as it is clamped to the unit interval); otherwise the
/// first bare number that reads as one; otherwise nothing, and the score is
/// zero.
pub open spec fn score_source_of(text: Seq<char>) -> Option<(Seq<char>, bool)> {
    match explicit_score(text) {
        Some(d) if plain_decimal(d) => Some((d, true)),
        _ => match first_plain(bare_numbers(text)) {
            Some(n) => Some((n, false)),
            None => None,
        },
    }
}

fn is_plain(s: &str) -> (r: bool)
    ensures
        r == plain_decimal(s@),
{
    let cs = crate::text::chars_of(s);
    if cs.len() == 0 {
        return false;
    }
    let mut i: usize = 0;
    while i < cs.len()
        invariant
            i <= cs@.len(),
            cs@ == s@,
            forall|k: int| 0 <= k < i ==> ('0' <= #[trigger] cs@[k] && cs@[k] <= '9') || cs@[k] == '.',
        decreases cs@.len() - i,
    {
        let c = cs[i];
        if !(('0' <= c && c <= '9') || c == '.') {
            return false;
        }
        i = i + 1;
    }
    true
}

/// Where a judge's score is read from (see [`score_source_of`]).
pub fn score_source(text: &str) -> (r: Option<(String, bool)>)
    ensures
        match r {
            Some((t, clamped)) => score_source_of(text@) == Some((t@, clamped)),
            None => score_source_of(text@) is None,
        },
{
    let c = score_candidates(text);
    let ScoreCandidates { explicit, numbers } = c;
    match explicit {
        Some(d) => {
            if is_plain(d.as_str()) {
                return Some((d, true));
            }
        },
        None => {},
    }
    let ghost nv = strings_view(numbers@);
    let ghost ex = explicit_score(text@);
    assert(ex is None || !plain_decimal(ex->0));
    assert(nv.skip(0) =~= nv);
    let mut i: usize = 0;
    while i < numbers.len()
        invariant
            i <= numbers@.len(),
            nv == strings_view(numbers@),
            nv == bare_numbers(text@),
            ex == explicit_score(text@),
            ex is None || !plain_decimal(ex->0),
            nv.len() == numbers@.len(),
            first_plain(nv) == first_plain(nv.skip(i as int)),
        decreases numbers@.len() - i,
    {
        assert(nv.skip(i as int)[0] == numbers@[i as int]@);
        assert(nv.skip(i as int).skip(1) =~= nv.skip(i + 1));
        if is_plain(numbers[i].as_str()) {
            let n = numbers[i].clone();
            assert(first_plain(nv) == Some(n@));
            return Some((n, false));
        }
        i = i + 1;
    }
    assert(nv.skip(i as int).len() == 0);
    None
}

/// The ranking read from a judge's answer for `n` responses (see
/// [`ranking_of`]).
pub fn parse_ranking(text: &str, n: usize) -> (r: Option<(Vec<Option<usize>>, usize)>)
    ensures
        match r {
            Some((places, total)) => ranking_of(text@, n as nat) == Some((places@, total)),
            None => ranking_of(text@, n as nat) is None,
        },
{
    let re = match compile_pattern(RANKING_PATTERN, false, false) {
        Ok(re) => re,
        Err(_) => {
            return None;
        },
    };
    let list_text = match first_captures(&re, text) {
        Some(g) => {
            if g.len() > 1 {
                proof {
                    assert(crate::pattern::groups_view(g@)[1] == crate::voting::opt_view(g@[1]));
                }
                match &g[1] {
                    Some(t) => t.clone(),
                    None => {
                        return None;
                    },
                }
            } else {
                return None;
            }
        },
        None => {
            return None;
        },
    };
    let pieces = comma_pieces(list_text.as_str());
    let ghost pv = strings_view(pieces@);
    let mut ranked: Vec<usize> = Vec::new();
    let mut i: usize = 0;
    while i < pieces.len()
        invariant
            i <= pieces@.len(),
            pv == strings_view(pieces@),
            ranked@ == listed_numbers(pv.take(i as int)),
        decreases pieces@.len() - i,
    {
        assert(pv.take(i + 1).drop_last() =~= pv.take(i as int));
        assert(pv.take(i + 1).last() == pieces@[i as int]@);
        let t = crate::text::trim_text(pieces[i].as_str());
        match parse_usize(t.as_str()) {
            Some(k) => ranked.push(k),
            None => {},
        }
        i = i + 1;
    }
    assert(pv.take(pieces@.len() as int) =~= pv);
    if ranked.len() == 0 || ranked.len() > n {
        return None;
    }
    let mut places: Vec<Option<usize>> = Vec::new();
    let mut j: usize = 0;
    while j < n
        invariant
            j <= n,
            places@ == Seq::new(j as nat, |x: int| None::<usize>),
        decreases n - j,
    {
        places.push(None);
        j = j + 1;
        assert(places@ =~= Seq::new(j as nat, |x: int| None::<usize>));
    }
    let mut k: usize = 0;
    while k < ranked.len()
        invariant
            k <= ranked@.len(),
            places@ == places_after(ranked@, n as nat, k as int),
            places@.len() == n,
        decreases ranked@.len() - k,
    {
        let idx = ranked[k];
        if idx >= 1 && idx <= n {
            places.set(idx - 1, Some(k));
        }
        k = k + 1;
    }
    let total = ranked.len();
    Some((places, total))
}

} // verus!
