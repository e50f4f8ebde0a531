//! The gateway's request and response documents, and how its answers are
//! assembled.

use vstd::prelude::*;
use crate::errors::{ErrorView, LmClientError};
use crate::json::{copy_json, get_member, jget, jview, jview_items, jview_members, JsonValue, JsonView};
use crate::messages::ChatMessage;

verus! {

/// A chat completion request. The temperature is the caller's number.
#[derive(Debug)]
pub struct ChatCompletionRequest<T> {
    pub model: String,
    pub messages: Vec<ChatMessage>,
    pub budget: u32,
    pub temperature: Option<T>,
    pub max_tokens: Option<u32>,
    pub stream: Option<bool>,
    pub tools: Option<Vec<JsonValue>>,
    pub tool_choice: Option<JsonValue>,
    pub return_response_only: bool,
}

/// The budget of a request that names none.
pub fn default_budget() -> (r: u32)
    ensures
        r == 8,
{
    8
}

/// Requests return only the selected response unless they ask otherwise.
pub fn default_true() -> (r: bool)
    ensures
        r,
{
    true
}

/// Token usage reported with a completion.
#[derive(Debug, Clone, Copy, PartialEq, Eq, Structural)]
pub struct ChatCompletionUsage {
    pub prompt_tokens: u32,
    pub completion_tokens: u32,
    pub total_tokens: u32,
}

/// One choice of a completion.
#[derive(Debug)]
pub struct ChatCompletionChoice {
    pub index: u32,
    pub message: JsonValue,
    pub finish_reason: String,
}

/// A chat completion answer.
#[derive(Debug)]
pub struct ChatCompletionResponse {
    pub id: String,
    pub object: String,
    pub created: u64,
    pub model: String,
    pub choices: Vec<ChatCompletionChoice>,
    pub usage: ChatCompletionUsage,
    pub metadata: Option<JsonValue>,
}

/// The answer to a configuration request.
#[derive(Debug, Clone)]
pub struct ConfigResponse {
    pub status: String,
    pub message: String,
}

/// The answer of the health endpoint.
#[derive(Debug, Clone)]
pub struct HealthResponse {
    pub status: String,
    pub algorithm: Option<String>,
    pub models: usize,
}

/// One served model.
#[derive(Debug, Clone)]
pub struct ModelInfo {
    pub id: String,
    pub object: String,
    pub owned_by: String,
}

/// The list of served models.
#[derive(Debug, Clone)]
pub struct ModelsResponse {
    pub data: Vec<ModelInfo>,
}

/// What an algorithm answers: the selected response, with or without the
/// algorithm's metadata.
#[derive(Debug)]
pub enum AlgorithmOutput {
    ResponseOnly(JsonValue),
    Full { selected: JsonValue, metadata: JsonValue },
}

/// The listing of the served models, each owned by the gateway.
pub fn models_response(ids: &Vec<String>) -> (r: ModelsResponse)
    ensures
        r.data@.len() == ids@.len(),
        forall|i: int| 0 <= i < ids@.len() ==> {
            &&& (#[trigger] r.data@[i]).id@ == ids@[i]@
            &&& r.data@[i].object@ == "model"@
            &&& r.data@[i].owned_by@ == "its-hub-rs"@
        },
{
    let mut data: Vec<ModelInfo> = Vec::new();
    let mut i: usize = 0;
    while i < ids.len()
        invariant
            i <= ids@.len(),
            data@.len() == i,
            forall|k: int| 0 <= k < i ==> {
                &&& (#[trigger] data@[k]).id@ == ids@[k]@
                &&& data@[k].object@ == "model"@
                &&& data@[k].owned_by@ == "its-hub-rs"@
            },
        decreases ids@.len() - i,
    {
        data.push(
            ModelInfo {
                id: ids[i].clone(),
                object: crate::text::owned("model"),
                owned_by: crate::text::owned("its-hub-rs"),
            },
        );
        i = i + 1;
    }
    ModelsResponse { data }
}

/// The answer to a successful configuration.
pub fn config_response(message: String) -> (r: ConfigResponse)
    ensures
        r.status@ == "success"@,
        r.message@ == message@,
{
    ConfigResponse { status: crate::text::owned("success"), message }
}

/// The selected response and the metadata, if the algorithm gave any.
pub fn output_parts(output: AlgorithmOutput) -> (r: (JsonValue, Option<JsonValue>))
    ensures
        match output {
            AlgorithmOutput::ResponseOnly(s) => r.0 == s && r.1 is None,
            AlgorithmOutput::Full { selected, metadata } => r.0 == selected && r.1 == Some(metadata),
        },
{
    match output {
        AlgorithmOutput::ResponseOnly(s) => (s, None),
        AlgorithmOutput::Full { selected, metadata } => (selected, Some(metadata)),
    }
}

/// A completion answer holding one choice, `message`, finished by `stop`.
pub open spec fn completion_shape(
    r: ChatCompletionResponse,
    id: Seq<char>,
    created: u64,
    model: Seq<char>,
    message: JsonValue,
    usage: ChatCompletionUsage,
    metadata: Option<JsonValue>,
) -> bool {
    &&& r.id@ == id
    &&& r.object@ == "chat.completion"@
    &&& r.created == created
    &&& r.model@ == model
    &&& r.choices@.len() == 1
    &&& r.choices@[0].index == 0
    &&& r.choices@[0].message == message
    &&& r.choices@[0].finish_reason@ == "stop"@
    &&& r.usage == usage
    &&& r.metadata == metadata
}

/// The answer of a completion run by an algorithm: usage is not counted.
pub fn completion_response(
    id: String,
    created: u64,
    model: String,
    selected: JsonValue,
    metadata: Option<JsonValue>,
) -> (r: ChatCompletionResponse)
    ensures
        completion_shape(
            r,
            id@,
            created,
            model@,
            selected,
            ChatCompletionUsage { prompt_tokens: 0, completion_tokens: 0, total_tokens: 0 },
            metadata,
        ),
{
    let choice = ChatCompletionChoice { index: 0, message: selected, finish_reason: crate::text::owned("stop") };
    ChatCompletionResponse {
        id,
        object: crate::text::owned("chat.completion"),
        created,
        model,
        choices: vec![choice],
        usage: ChatCompletionUsage { prompt_tokens: 0, completion_tokens: 0, total_tokens: 0 },
        metadata,
    }
}

/// The marker of an answer that bypassed the algorithm.
pub open spec fn passthrough_marker() -> JsonView {
    JsonView::Object(seq![("passthrough"@, JsonView::Bool(true))])
}

/// The answer of a request forwarded without an algorithm: the upstream
/// usage (none counted when absent), marked as passthrough.
pub fn passthrough_response(
    id: String,
    created: u64,
    model: String,
    message: JsonValue,
    usage: Option<ChatCompletionUsage>,
) -> (r: ChatCompletionResponse)
    ensures
        r.id@ == id@,
        r.object@ == "chat.completion"@,
        r.created == created,
        r.model@ == model@,
        r.choices@.len() == 1,
        r.choices@[0].index == 0,
        r.choices@[0].message == message,
        r.choices@[0].finish_reason@ == "stop"@,
        r.usage == match usage {
            Some(u) => u,
            None => ChatCompletionUsage { prompt_tokens: 0, completion_tokens: 0, total_tokens: 0 },
        },
        r.metadata is Some && jview(r.metadata->0) == passthrough_marker(),
{
    let u = match usage {
        Some(u) => u,
        None => ChatCompletionUsage { prompt_tokens: 0, completion_tokens: 0, total_tokens: 0 },
    };
    let mut ms: Vec<(String, JsonValue)> = Vec::new();
    crate::client::push_member(&mut ms, "passthrough", JsonValue::Bool(true));
    assert(jview_members(ms@) =~= seq![("passthrough"@, JsonView::Bool(true))]);
    let choice = ChatCompletionChoice { index: 0, message, finish_reason: crate::text::owned("stop") };
    ChatCompletionResponse {
        id,
        object: crate::text::owned("chat.completion"),
        created,
        model,
        choices: vec![choice],
        usage: u,
        metadata: Some(JsonValue::Object(ms)),
    }
}

/// The message of the first choice of an upstream answer, if there is one.
pub open spec fn first_choice_message(response: JsonView) -> Option<JsonView> {
    match jget(response, "choices"@) {
        Some(JsonView::Array(items)) if items.len() > 0 => jget(items[0], "message"@),
        _ => None,
    }
}

/// The message of the first choice of an upstream answer; refused as a
/// connection error when it has none.
pub fn response_message(response: &JsonValue) -> (r: Result<JsonValue, LmClientError>)
    ensures
        match first_choice_message(jview(*response)) {
            Some(m) => r is Ok && jview(r->Ok_0) == m,
            None => r is Err && r->Err_0@ == ErrorView::Connection("response missing choices[0].message"@),
        },
{
    let choice = match get_member(response, "choices") {
        Some(JsonValue::Array(items)) => {
            proof {
                crate::json::lemma_jview_items(items@);
            }
            if items.len() > 0 {
                Some(&items[0])
            } else {
                None
            }
        },
        _ => None,
    };
    let message = match choice {
        Some(c) => get_member(c, "message"),
        None => None,
    };
    match message {
        Some(m) => Ok(copy_json(m)),
        None => Err(LmClientError::Connection(crate::text::owned("response missing choices[0].message"))),
    }
}

/// The count under `key` of a usage object, when it is a number that fits
/// in 32 bits.
pub open spec fn usage_count(usage: JsonView, key: Seq<char>) -> Option<u32> {
    match jget(usage, key) {
        Some(JsonView::Number(n)) => crate::gateway::parsed_u32(n),
        _ => None,
    }
}

/// The token usage an upstream answer reports: its `usage` object, when
/// the prompt, completion and total counts are all 32-bit numbers.
pub open spec fn reported_usage(response: JsonView) -> Option<ChatCompletionUsage> {
    match jget(response, "usage"@) {
        Some(u) => match (usage_count(u, "prompt_tokens"@), usage_count(u, "completion_tokens"@), usage_count(u, "total_tokens"@)) {
            (Some(p), Some(c), Some(t)) => Some(ChatCompletionUsage { prompt_tokens: p, completion_tokens: c, total_tokens: t }),
            _ => None,
        },
        None => None,
    }
}

fn count_at(usage: &JsonValue, key: &str) -> (r: Option<u32>)
    ensures
        r == usage_count(jview(*usage), key@),
{
    match get_member(usage, key) {
        Some(JsonValue::Number(n)) => crate::gateway::parse_u32(n.as_str()),
        _ => None,
    }
}

/// The token usage an upstream answer reports (see [`reported_usage`]).
pub fn response_usage(response: &JsonValue) -> (r: Option<ChatCompletionUsage>)
    ensures
        r == reported_usage(jview(*response)),
{
    match get_member(response, "usage") {
        Some(u) => {
            let p = count_at(u, "prompt_tokens");
            let c = count_at(u, "completion_tokens");
            let t = count_at(u, "total_tokens");
            match (p, c, t) {
                (Some(p), Some(c), Some(t)) => Some(ChatCompletionUsage { prompt_tokens: p, completion_tokens: c, total_tokens: t }),
                _ => None,
            }
        },
        None => None,
    }
}

} // verus!
