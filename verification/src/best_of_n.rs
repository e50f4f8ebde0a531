//! Best-of-n bookkeeping: responses are de-duplicated before scoring, and
//! the scores of the distinct responses are spread back over all responses.

use vstd::prelude::*;
use crate::errors::{error_message, error_prefix, ErrorView, LmClientError};
use crate::json::{copy_json, jview, jview_members, JsonValue, JsonView};
use crate::voting::all_distinct;

verus! {

/// The distinct values of `s`, in the order of their first occurrence.
pub open spec fn distinct_in_order(s: Seq<Seq<char>>) -> Seq<Seq<char>>
    decreases s.len(),
{
    if s.len() == 0 {
        Seq::empty()
    } else {
        let prev = distinct_in_order(s.drop_last());
        if prev.contains(s.last()) {
            prev
        } else {
            prev.push(s.last())
        }
    }
}

/// The views of a list of strings.
pub open spec fn texts(v: Seq<String>) -> Seq<Seq<char>> {
    v.map_values(|s: String| s@)
}

/// Every value of `s` occurs in `distinct_in_order(s)`, whose values are
/// pairwise distinct and all occur in `s`.
pub proof fn lemma_distinct_in_order(s: Seq<Seq<char>>)
    ensures
        all_distinct(distinct_in_order(s)),
        forall|i: int| 0 <= i < s.len() ==> distinct_in_order(s).contains(#[trigger] s[i]),
        forall|k: int| 0 <= k < distinct_in_order(s).len() ==> s.contains(#[trigger] distinct_in_order(s)[k]),
    decreases s.len(),
{
    if s.len() > 0 {
        lemma_distinct_in_order(s.drop_last());
        let prev = distinct_in_order(s.drop_last());
        assert forall|i: int| 0 <= i < s.len() implies distinct_in_order(s).contains(#[trigger] s[i]) by {
            if i < s.len() - 1 {
                assert(s.drop_last()[i] == s[i]);
                assert(prev.contains(s.drop_last()[i]));
                let k = choose|k: int| 0 <= k < prev.len() && prev[k] == s[i];
                if !prev.contains(s.last()) {
                    assert(prev.push(s.last())[k] == s[i]);
                }
            } else {
                assert(s[i] == s.last());
                if !prev.contains(s.last()) {
                    assert(prev.push(s.last())[prev.len() as int] == s.last());
                }
            }
        }
        assert forall|k: int| 0 <= k < distinct_in_order(s).len() implies s.contains(#[trigger] distinct_in_order(s)[k]) by {
            if k < prev.len() {
                let j = choose|j: int| 0 <= j < s.drop_last().len() && s.drop_last()[j] == prev[k];
                assert(s[j] == prev[k]);
            } else {
                assert(s[s.len() - 1] == s.last());
            }
        }
    }
}

/// An occurrence of the `k2`-th distinct value is preceded by an occurrence
/// of the `k1`-th, for `k1 < k2`.
proof fn lemma_earlier_distinct_occurs_before(s: Seq<Seq<char>>, k1: int, k2: int, j2: int)
    requires
        0 <= k1 < k2 < distinct_in_order(s).len(),
        0 <= j2 < s.len(),
        s[j2] == distinct_in_order(s)[k2],
    ensures
        exists|j1: int| 0 <= j1 < j2 && #[trigger] s[j1] == distinct_in_order(s)[k1],
    decreases s.len(),
{
    let t = s.drop_last();
    lemma_distinct_in_order(t);
    let prev = distinct_in_order(t);
    let d = distinct_in_order(s);
    assert(k1 < prev.len());
    assert(d[k1] == prev[k1]);
    if j2 < s.len() - 1 {
        assert(t[j2] == s[j2]);
        if k2 < prev.len() {
            assert(d[k2] == prev[k2]);
            lemma_earlier_distinct_occurs_before(t, k1, k2, j2);
            let j1 = choose|j1: int| 0 <= j1 < j2 && #[trigger] t[j1] == prev[k1];
            assert(s[j1] == t[j1]);
        } else {
            assert(prev.contains(t[j2]));
            assert(false);
        }
    } else {
        assert(t.contains(prev[k1]));
        let j1 = choose|j1: int| 0 <= j1 < t.len() && t[j1] == prev[k1];
        assert(s[j1] == t[j1]);
    }
}

/// Every occurrence of `later` in `s` is preceded by an occurrence of
/// `earlier`.
pub open spec fn occurs_before(s: Seq<Seq<char>>, earlier: Seq<char>, later: Seq<char>) -> bool {
    forall|j2: int| 0 <= j2 < s.len() && #[trigger] s[j2] == later ==> exists|j1: int| 0 <= j1 < j2 && s[j1] == earlier
}

/// The distinct values come in the order of their first occurrence: every
/// occurrence of a later distinct value is preceded by an occurrence of each
/// earlier one.
pub proof fn law_distinct_in_first_occurrence_order(s: Seq<Seq<char>>)
    ensures
        forall|k1: int, k2: int|
            0 <= k1 < k2 < distinct_in_order(s).len() ==> #[trigger] occurs_before(s, distinct_in_order(s)[k1], distinct_in_order(s)[k2]),
{
    let d = distinct_in_order(s);
    assert forall|k1: int, k2: int| 0 <= k1 < k2 < d.len() implies #[trigger] occurs_before(s, d[k1], d[k2]) by {
        assert forall|j2: int| 0 <= j2 < s.len() && #[trigger] s[j2] == d[k2] implies exists|j1: int| 0 <= j1 < j2 && s[j1] == d[k1] by {
            lemma_earlier_distinct_occurs_before(s, k1, k2, j2);
        }
    }
}

/// The first position of `item` in `v`, if any.
fn position_in(v: &Vec<String>, item: &String) -> (r: Option<usize>)
    ensures
        match r {
            Some(j) => j < v@.len() && v@[j as int]@ == item@,
            None => forall|k: int| 0 <= k < v@.len() ==> v@[k]@ != item@,
        },
{
    let mut j: usize = 0;
    while j < v.len()
        invariant
            j <= v@.len(),
            forall|k: int| 0 <= k < j ==> v@[k]@ != item@,
        decreases v@.len() - j,
    {
        if v[j] == *item {
            return Some(j);
        }
        j = j + 1;
    }
    None
}

/// The distinct items in the order of their first occurrence, and for each
/// item the position of its value among them.
pub fn dedupe_with_inverse(items: &Vec<String>) -> (r: (Vec<String>, Vec<usize>))
    ensures
        texts(r.0@) == distinct_in_order(texts(items@)),
        all_distinct(texts(r.0@)),
        r.1@.len() == items@.len(),
        forall|i: int| 0 <= i < items@.len() ==> (#[trigger] r.1@[i]) < r.0@.len() && r.0@[r.1@[i] as int]@ == items@[i]@,
{
    let ghost iv = texts(items@);
    let mut uniques: Vec<String> = Vec::new();
    let mut inverse: Vec<usize> = Vec::new();
    let mut i: usize = 0;
    while i < items.len()
        invariant
            i <= items@.len(),
            iv == texts(items@),
            texts(uniques@) == distinct_in_order(iv.take(i as int)),
            all_distinct(texts(uniques@)),
            inverse@.len() == i,
            forall|k: int| 0 <= k < i ==> (#[trigger] inverse@[k]) < uniques@.len() && uniques@[inverse@[k] as int]@ == items@[k]@,
        decreases items@.len() - i,
    {
        assert(iv.take(i + 1).drop_last() =~= iv.take(i as int));
        assert(iv.take(i + 1).last() == items@[i as int]@);
        let pos = position_in(&uniques, &items[i]);
        let ghost before = texts(uniques@);
        if let Some(j) = pos {
            assert(before[j as int] == items@[i as int]@);
            assert(before.contains(items@[i as int]@));
            inverse.push(j);
        } else {
            assert(!before.contains(items@[i as int]@)) by {
                if before.contains(items@[i as int]@) {
                    let k = choose|k: int| 0 <= k < before.len() && before[k] == items@[i as int]@;
                    assert(uniques@[k]@ == items@[i as int]@);
                }
            }
            let n = uniques.len();
            uniques.push(items[i].clone());
            assert(texts(uniques@) =~= before.push(items@[i as int]@));
            inverse.push(n);
        }
        i = i + 1;
    }
    assert(iv.take(items@.len() as int) =~= iv);
    (uniques, inverse)
}

/// `values` read at each of the positions `idx`, in order.
pub fn gather_by_index<T: Copy>(values: &Vec<T>, idx: &Vec<usize>) -> (r: Vec<T>)
    requires
        forall|i: int| 0 <= i < idx@.len() ==> (#[trigger] idx@[i]) < values@.len(),
    ensures
        r@.len() == idx@.len(),
        forall|i: int| 0 <= i < idx@.len() ==> (#[trigger] r@[i]) == values@[idx@[i] as int],
{
    let mut r: Vec<T> = Vec::new();
    let mut i: usize = 0;
    while i < idx.len()
        invariant
            i <= idx@.len(),
            r@.len() == i,
            forall|k: int| 0 <= k < idx@.len() ==> (#[trigger] idx@[k]) < values@.len(),
            forall|k: int| 0 <= k < i ==> (#[trigger] r@[k]) == values@[idx@[k] as int],
        decreases idx@.len() - i,
    {
        r.push(values[idx[i]]);
        i = i + 1;
    }
    r
}

/// Scoring the distinct responses and spreading the scores back through the
/// inverse positions gives equal responses equal scores, and each response
/// the score of its own text.
pub proof fn law_equal_responses_equal_scores<T>(
    items: Seq<Seq<char>>,
    uniques: Seq<Seq<char>>,
    inverse: Seq<usize>,
    unique_scores: Seq<T>,
    scores: Seq<T>,
)
    requires
        uniques == distinct_in_order(items),
        inverse.len() == items.len(),
        forall|i: int| 0 <= i < items.len() ==> (#[trigger] inverse[i]) < uniques.len() && uniques[inverse[i] as int] == items[i],
        unique_scores.len() == uniques.len(),
        scores.len() == inverse.len(),
        forall|i: int| 0 <= i < inverse.len() ==> (#[trigger] scores[i]) == unique_scores[inverse[i] as int],
    ensures
        forall|i: int, j: int| 0 <= i < items.len() && 0 <= j < items.len() && items[i] == items[j] ==> scores[i] == scores[j],
        forall|i: int| 0 <= i < items.len() ==> exists|k: int| 0 <= k < uniques.len() && uniques[k] == items[i] && #[trigger] scores[i] == unique_scores[k],
{
    lemma_distinct_in_order(items);
    assert forall|i: int, j: int| 0 <= i < items.len() && 0 <= j < items.len() && items[i] == items[j] implies scores[i] == scores[j] by {
        assert(uniques[inverse[i] as int] == uniques[inverse[j] as int]);
        assert(inverse[i] == inverse[j]);
    }
    assert forall|i: int| 0 <= i < items.len() implies exists|k: int| 0 <= k < uniques.len() && uniques[k] == items[i] && #[trigger] scores[i] == unique_scores[k] by {
        let k = inverse[i] as int;
        assert(uniques[k] == items[i] && scores[i] == unique_scores[k]);
    }
}

/// The content that stands in for a failed generation: the replacement
/// message (by default `Error during generation`), a colon, and the error.
pub fn failure_content(replacement: &Option<String>, error: &str) -> (r: String)
    ensures
        r@ == (match replacement {
            Some(m) => m@,
            None => "Error during generation"@,
        }) + ": "@ + error@,
{
    let mut r = match replacement {
        Some(m) => m.clone(),
        None => crate::text::owned("Error during generation"),
    };
    r.append(": ");
    r.append(error);
    r
}

/// The message that stands in for a failed generation.
pub open spec fn failure_message(replacement: Option<String>, error: ErrorView) -> JsonView {
    JsonView::Object(seq![
        ("role"@, JsonView::Str("assistant"@)),
        ("content"@, JsonView::Str((match replacement {
            Some(m) => m@,
            None => "Error during generation"@,
        }) + ": "@ + error_prefix(error) + error_message(error))),
    ])
}

/// The responses of a fan-out, each failure replaced by a message that
/// names it; refused when every generation failed.
pub fn collect_responses(results: &Vec<Result<JsonValue, LmClientError>>, replacement: &Option<String>) -> (r: Result<Vec<JsonValue>, String>)
    ensures
        (forall|i: int| 0 <= i < results@.len() ==> results@[i] is Err) <==> r is Err,
        r is Err ==> r->Err_0@ == "all fan-out requests failed"@,
        r is Ok ==> r->Ok_0@.len() == results@.len() && forall|i: int| 0 <= i < results@.len() ==> jview(#[trigger] r->Ok_0@[i]) == match results@[i] {
            Ok(v) => jview(v),
            Err(e) => failure_message(*replacement, e@),
        },
{
    let mut out: Vec<JsonValue> = Vec::new();
    let mut all_failed = true;
    let mut i: usize = 0;
    while i < results.len()
        invariant
            i <= results@.len(),
            out@.len() == i,
            all_failed == (forall|k: int| 0 <= k < i ==> results@[k] is Err),
            forall|k: int| 0 <= k < i ==> jview(#[trigger] out@[k]) == match results@[k] {
                Ok(v) => jview(v),
                Err(e) => failure_message(*replacement, e@),
            },
        decreases results@.len() - i,
    {
        match &results[i] {
            Ok(v) => {
                all_failed = false;
                out.push(copy_json(v));
            },
            Err(e) => {
                let d = e.describe();
                let content = failure_content(replacement, d.as_str());
                assert(content@ =~= (match *replacement {
                    Some(m) => m@,
                    None => "Error during generation"@,
                }) + ": "@ + error_prefix(e@) + error_message(e@));
                let mut ms: Vec<(String, JsonValue)> = Vec::new();
                crate::client::push_member(&mut ms, "role", JsonValue::Str(crate::text::owned("assistant")));
                crate::client::push_member(&mut ms, "content", JsonValue::Str(content));
                assert(jview_members(ms@) =~= match failure_message(*replacement, e@) {
                    JsonView::Object(x) => x,
                    _ => Seq::empty(),
                });
                out.push(JsonValue::Object(ms));
            },
        }
        i = i + 1;
    }
    if all_failed {
        return Err(crate::text::owned("all fan-out requests failed"));
    }
    Ok(out)
}

} // verus!
