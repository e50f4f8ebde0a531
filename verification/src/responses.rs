//! Reading response messages: their text content, their tool calls, and
//! the arguments of a tool call.

use vstd::prelude::*;
use crate::canonical::{canonical, canonical_json};
use crate::json::{copy_json, get_member, jget, jview, jview_items, jview_members, JsonValue, JsonView};
use crate::text::seq_join;

verus! {

/// What `serde_json::from_str::<serde_json::Value>` gives for a text: the
/// parsed value, or `None` when the text is not JSON.
pub uninterp spec fn spec_parse_json(text: Seq<char>) -> Option<JsonView>;

/// The view of an optional owned JSON value.
pub open spec fn opt_json(v: Option<JsonValue>) -> Option<JsonView> {
    match v {
        Some(x) => Some(jview(x)),
        None => None,
    }
}

/// Converts a parsed serde_json value, variant by variant.
#[verifier::external_body]
fn from_serde(v: serde_json::Value) -> JsonValue {
    match v {
        serde_json::Value::Null => JsonValue::Null,
        serde_json::Value::Bool(b) => JsonValue::Bool(b),
        serde_json::Value::Number(n) => JsonValue::Number(n.to_string()),
        serde_json::Value::String(s) => JsonValue::Str(s),
        serde_json::Value::Array(a) => JsonValue::Array(a.into_iter().map(from_serde).collect()),
        serde_json::Value::Object(m) => JsonValue::Object(m.into_iter().map(|(k, x)| (k, from_serde(x))).collect()),
    }
}

/// `serde_json::from_str::<serde_json::Value>`, the value converted member
/// by member. Claims: the result is the one named by `spec_parse_json`.
#[verifier::external_body]
pub fn parse_json_text(text: &str) -> (r: Option<JsonValue>)
    ensures
        opt_json(r) == spec_parse_json(text@),
{
    serde_json::from_str::<serde_json::Value>(text).ok().map(from_serde)
}

/// The string inside a JSON string value.
pub open spec fn as_text(v: Option<JsonView>) -> Option<Seq<char>> {
    match v {
        Some(JsonView::Str(s)) => Some(s),
        _ => None,
    }
}

/// Whether the response carries a non-empty `tool_calls` array.
pub open spec fn has_calls(response: JsonView) -> bool {
    match jget(response, "tool_calls"@) {
        Some(JsonView::Array(tcs)) => tcs.len() > 0,
        _ => false,
    }
}

/// Whether the response carries a non-empty `tool_calls` array.
pub fn has_tool_calls(response: &JsonValue) -> (r: bool)
    ensures
        r == has_calls(jview(*response)),
{
    match get_member(response, "tool_calls") {
        Some(JsonValue::Array(tcs)) => {
            proof {
                crate::json::lemma_jview_items(tcs@);
            }
            tcs.len() > 0
        },
        _ => false,
    }
}

/// Whether `key` is one of the excluded keys.
pub open spec fn excluded(exclude: Seq<String>, key: Seq<char>) -> bool {
    exists|i: int| 0 <= i < exclude.len() && exclude[i]@ == key
}

/// The members whose key is not excluded, in order.
pub open spec fn kept_members(ms: Seq<(Seq<char>, JsonView)>, exclude: Seq<String>) -> Seq<(Seq<char>, JsonView)>
    decreases ms.len(),
{
    if ms.len() == 0 {
        Seq::empty()
    } else if excluded(exclude, ms.last().0) {
        kept_members(ms.drop_last(), exclude)
    } else {
        kept_members(ms.drop_last(), exclude).push(ms.last())
    }
}

/// The arguments without the excluded keys; values other than objects unchanged.
pub open spec fn filtered_args(args: JsonView, exclude: Seq<String>) -> JsonView {
    match args {
        JsonView::Object(ms) => JsonView::Object(kept_members(ms, exclude)),
        other => other,
    }
}

fn is_excluded(exclude: &Vec<String>, key: &String) -> (r: bool)
    ensures
        r == excluded(exclude@, key@),
{
    let mut i: usize = 0;
    while i < exclude.len()
        invariant
            i <= exclude@.len(),
            forall|j: int| 0 <= j < i ==> exclude@[j]@ != key@,
        decreases exclude@.len() - i,
    {
        if exclude[i] == *key {
            return true;
        }
        i = i + 1;
    }
    false
}

/// The arguments without the excluded keys (see [`filtered_args`]).
pub fn filter_args(args: &JsonValue, exclude: &Vec<String>) -> (r: JsonValue)
    ensures
        jview(r) == filtered_args(jview(*args), exclude@),
{
    match args {
        JsonValue::Object(members) => {
            let ghost mv = jview_members(members@);
            proof {
                crate::json::lemma_jview_members(members@);
            }
            let mut out: Vec<(String, JsonValue)> = Vec::new();
            let mut i: usize = 0;
            while i < members.len()
                invariant
                    i <= members@.len(),
                    mv == jview_members(members@),
                    mv.len() == members@.len(),
                    forall|j: int| 0 <= j < members@.len() ==> #[trigger] mv[j] == (members@[j].0@, jview(members@[j].1)),
                    jview_members(out@) == kept_members(mv.take(i as int), exclude@),
                decreases members@.len() - i,
            {
                assert(mv.take(i + 1).drop_last() =~= mv.take(i as int));
                assert(mv.take(i + 1).last() == mv[i as int]);
                if !is_excluded(exclude, &members[i].0) {
                    let v = copy_json(&members[i].1);
                    crate::client::push_member(&mut out, members[i].0.as_str(), v);
                }
                i = i + 1;
            }
            assert(mv.take(members@.len() as int) =~= mv);
            JsonValue::Object(out)
        },
        _ => copy_json(args),
    }
}

/// The texts of the parts of type `text` that carry a text.
pub open spec fn text_parts(parts: Seq<JsonView>) -> Seq<Seq<char>>
    decreases parts.len(),
{
    if parts.len() == 0 {
        Seq::empty()
    } else {
        let p = parts.last();
        if as_text(jget(p, "type"@)) == Some("text"@) && as_text(jget(p, "text"@)) is Some {
            text_parts(parts.drop_last()).push(as_text(jget(p, "text"@))->0)
        } else {
            text_parts(parts.drop_last())
        }
    }
}

/// The description of one tool call: `[Tool call: NAME Tool args: ARGS]`,
/// the arguments as given when a string, else as compact JSON.
pub open spec fn call_description(tc: JsonView) -> Seq<char> {
    let f = jget(tc, "function"@);
    let name = match f {
        Some(fv) => match as_text(jget(fv, "name"@)) {
            Some(n) => n,
            None => Seq::empty(),
        },
        None => Seq::empty(),
    };
    let args = match f {
        Some(fv) => match jget(fv, "arguments"@) {
            Some(JsonView::Str(s)) => s,
            Some(a) => canonical(a),
            None => Seq::empty(),
        },
        None => Seq::empty(),
    };
    "[Tool call: "@ + name + " Tool args: "@ + args + "]"@
}

/// The text of a response message: its content (a string, or its text
/// parts joined by spaces), then the descriptions of its tool calls joined
/// by spaces.
pub open spec fn response_text(message: JsonView) -> Seq<char> {
    let content = match jget(message, "content"@) {
        Some(JsonView::Str(s)) => s,
        Some(JsonView::Array(parts)) => seq_join(text_parts(parts), " "@),
        _ => Seq::empty(),
    };
    let calls = match jget(message, "tool_calls"@) {
        Some(JsonView::Array(tcs)) => seq_join(tcs.map_values(|tc: JsonView| call_description(tc)), " "@),
        _ => Seq::empty(),
    };
    content + calls
}

fn str_member<'a>(v: &'a JsonValue, key: &str) -> (r: Option<&'a String>)
    ensures
        match r {
            Some(s) => as_text(jget(jview(*v), key@)) == Some(s@),
            None => as_text(jget(jview(*v), key@)) is None,
        },
{
    match get_member(v, key) {
        Some(JsonValue::Str(s)) => Some(s),
        _ => None,
    }
}

fn describe_call(tc: &JsonValue) -> (r: String)
    ensures
        r@ == call_description(jview(*tc)),
{
    let f = get_member(tc, "function");
    let name = match f {
        Some(fv) => match str_member(fv, "name") {
            Some(n) => n.clone(),
            None => String::new(),
        },
        None => String::new(),
    };
    let args = match f {
        Some(fv) => match get_member(fv, "arguments") {
            Some(JsonValue::Str(s)) => s.clone(),
            Some(a) => canonical_json(a),
            None => String::new(),
        },
        None => String::new(),
    };
    let mut r = crate::text::owned("[Tool call: ");
    r.append(name.as_str());
    r.append(" Tool args: ");
    r.append(args.as_str());
    r.append("]");
    r
}

/// The text of a response message (see [`response_text`]).
pub fn extract_content_from_lm_response(message: &JsonValue) -> (r: String)
    ensures
        r@ == response_text(jview(*message)),
{
    let mut result = match get_member(message, "content") {
        Some(JsonValue::Str(s)) => s.clone(),
        Some(JsonValue::Array(parts)) => {
            let ghost pv = jview_items(parts@);
            proof {
                crate::json::lemma_jview_items(parts@);
            }
            let mut texts: Vec<String> = Vec::new();
            let mut i: usize = 0;
            while i < parts.len()
                invariant
                    i <= parts@.len(),
                    pv == jview_items(parts@),
                    pv.len() == parts@.len(),
                    forall|j: int| 0 <= j < parts@.len() ==> #[trigger] pv[j] == jview(parts@[j]),
                    texts@.map_values(|t: String| t@) == text_parts(pv.take(i as int)),
                decreases parts@.len() - i,
            {
                assert(pv.take(i + 1).drop_last() =~= pv.take(i as int));
                assert(pv.take(i + 1).last() == jview(parts@[i as int]));
                let ghost before = texts@.map_values(|t: String| t@);
                let is_text = match str_member(&parts[i], "type") {
                    Some(t) => crate::messages::eq_lit(t, "text"),
                    None => false,
                };
                if is_text {
                    match str_member(&parts[i], "text") {
                        Some(t) => {
                            texts.push(t.clone());
                            assert(texts@.map_values(|t: String| t@) =~= before.push(t@));
                        },
                        None => {},
                    }
                }
                i = i + 1;
            }
            assert(pv.take(parts@.len() as int) =~= pv);
            crate::text::join_strings(&texts, " ")
        },
        _ => String::new(),
    };
    match get_member(message, "tool_calls") {
        Some(JsonValue::Array(tcs)) => {
            let ghost tv = jview_items(tcs@);
            proof {
                crate::json::lemma_jview_items(tcs@);
            }
            let mut descs: Vec<String> = Vec::new();
            let mut i: usize = 0;
            while i < tcs.len()
                invariant
                    i <= tcs@.len(),
                    tv == jview_items(tcs@),
                    tv.len() == tcs@.len(),
                    forall|j: int| 0 <= j < tcs@.len() ==> #[trigger] tv[j] == jview(tcs@[j]),
                    descs@.len() == i,
                    forall|j: int| 0 <= j < i ==> (#[trigger] descs@[j])@ == call_description(tv[j]),
                decreases tcs@.len() - i,
            {
                descs.push(describe_call(&tcs[i]));
                i = i + 1;
            }
            assert(descs@.map_values(|t: String| t@) =~= tv.map_values(|tc: JsonView| call_description(tc)));
            let joined = crate::text::join_strings(&descs, " ");
            result.append(joined.as_str());
        },
        _ => {
            proof {
                assert(result@ + Seq::<char>::empty() =~= result@);
            }
        },
    }
    result
}

} // verus!
