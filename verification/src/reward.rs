//! The bodies of the requests sent to reward model endpoints.

use vstd::prelude::*;
use crate::client::{message_list, messages_json, push_member};
use crate::json::{jview, jview_items, jview_members, lemma_jview_items, JsonValue, JsonView};
use crate::messages::{messages_view, prompt_text, ChatMessage, ChatMessages, ChatMessagesView, MessageView};
use crate::text::{join_strings, seq_join, strings_view};

verus! {

/// The texts as JSON strings.
pub open spec fn json_strings(texts: Seq<Seq<char>>) -> Seq<JsonView> {
    texts.map_values(|t: Seq<char>| JsonView::Str(t))
}

/// The body asking an outcome reward model to score whole responses: the
/// conversation, then the responses.
pub open spec fn orm_body(prompt: Seq<MessageView>, responses: Seq<Seq<char>>) -> JsonView {
    JsonView::Object(
        seq![
            ("prompt"@, JsonView::Array(message_list(None, prompt))),
            ("responses"@, JsonView::Array(json_strings(responses))),
        ],
    )
}

/// The body asking an outcome reward model to score `responses` to the
/// conversation (see [`orm_body`]).
pub fn orm_request_body(prompt: &Vec<ChatMessage>, responses: &Vec<String>) -> (r: JsonValue)
    ensures
        jview(r) == orm_body(messages_view(prompt@), strings_view(responses@)),
{
    let msgs = messages_json(&None, prompt);
    let mut items: Vec<JsonValue> = Vec::new();
    let mut i: usize = 0;
    while i < responses.len()
        invariant
            i <= responses@.len(),
            items@.len() == i,
            forall|j: int| 0 <= j < i ==> jview(#[trigger] items@[j]) == JsonView::Str(responses@[j]@),
        decreases responses@.len() - i,
    {
        items.push(JsonValue::Str(responses[i].clone()));
        i = i + 1;
    }
    proof {
        lemma_jview_items(items@);
        assert(jview_items(items@) =~= json_strings(strings_view(responses@)));
    }
    let mut ms: Vec<(String, JsonValue)> = Vec::new();
    push_member(&mut ms, "prompt", msgs);
    push_member(&mut ms, "responses", JsonValue::Array(items));
    proof {
        assert(jview_members(ms@) =~= match orm_body(messages_view(prompt@), strings_view(responses@)) {
            JsonView::Object(x) => x,
            _ => Seq::empty(),
        });
    }
    JsonValue::Object(ms)
}

/// The body asking a process reward model to score a response prefix: the
/// prompt's text form, then the steps so far separated by blank lines.
pub open spec fn prm_body(prompt: ChatMessagesView, steps: Seq<Seq<char>>) -> JsonView {
    JsonView::Object(
        seq![
            ("prompt"@, JsonView::Str(prompt_text(prompt))),
            ("response_prefix"@, JsonView::Str(seq_join(steps, "\n\n"@))),
        ],
    )
}

/// The body asking a process reward model to score `steps` (see
/// [`prm_body`]).
pub fn prm_request_body(prompt: &ChatMessages, steps: &Vec<String>) -> (r: JsonValue)
    ensures
        jview(r) == prm_body(prompt@, strings_view(steps@)),
{
    let text = prompt.to_prompt();
    let prefix = join_strings(steps, "\n\n");
    let mut ms: Vec<(String, JsonValue)> = Vec::new();
    push_member(&mut ms, "prompt", JsonValue::Str(text));
    push_member(&mut ms, "response_prefix", JsonValue::Str(prefix));
    proof {
        assert(jview_members(ms@) =~= match prm_body(prompt@, strings_view(steps@)) {
            JsonView::Object(x) => x,
            _ => Seq::empty(),
        });
    }
    JsonValue::Object(ms)
}

} // verus!
