//! The settings of a client of an OpenAI-compatible chat endpoint, the
//! request bodies it sends, and when a failed request is retried.

use vstd::prelude::*;
use crate::errors::{ErrorView, LmClientError};
use crate::json::{jview, jview_items, jview_members, JsonValue, JsonView};
use crate::messages::{message_json, message_jview, messages_view, ChatMessage, MessageView};
use crate::text::{decimal, seq_contains};
use crate::voting::opt_view;

verus! {

/// The kind of server behind an endpoint.
#[derive(Debug, Clone, Copy, PartialEq, Eq, Structural)]
pub enum EndpointType {
    OpenAI,
    Vllm,
}

/// The kind of server an endpoint URL names: OpenAI when the URL mentions
/// `openai`, a vLLM server otherwise.
pub open spec fn endpoint_kind(endpoint: Seq<char>) -> EndpointType {
    if seq_contains(endpoint, "openai"@) {
        EndpointType::OpenAI
    } else {
        EndpointType::Vllm
    }
}

/// The kind of server an endpoint URL names (see [`endpoint_kind`]).
pub fn endpoint_type_of(endpoint: &str) -> (r: EndpointType)
    ensures
        r == endpoint_kind(endpoint@),
{
    if crate::text::text_contains(endpoint, "openai") {
        EndpointType::OpenAI
    } else {
        EndpointType::Vllm
    }
}

/// `s` without its trailing slashes.
pub open spec fn without_trailing_slashes(s: Seq<char>) -> Seq<char>
    decreases s.len(),
{
    if s.len() > 0 && s.last() == '/' {
        without_trailing_slashes(s.drop_last())
    } else {
        s
    }
}

/// `s` without its trailing slashes (`trim_end_matches('/')`).
pub fn trim_trailing_slashes(s: &str) -> (r: String)
    ensures
        r@ == without_trailing_slashes(s@),
{
    let cs = crate::text::chars_of(s);
    let mut n: usize = cs.len();
    assert(s@.take(s@.len() as int) =~= s@);
    while n > 0 && cs[n - 1] == '/'
        invariant
            n <= cs@.len(),
            cs@ == s@,
            without_trailing_slashes(s@) == without_trailing_slashes(s@.take(n as int)),
        decreases n,
    {
        assert(s@.take(n as int).drop_last() =~= s@.take(n - 1));
        n = n - 1;
    }
    let mut out: Vec<char> = Vec::new();
    let mut i: usize = 0;
    while i < n
        invariant
            i <= n <= cs@.len(),
            out@ == cs@.take(i as int),
        decreases n - i,
    {
        out.push(cs[i]);
        i = i + 1;
        assert(out@ =~= cs@.take(i as int));
    }
    if n > 0 {
        assert(s@.take(n as int).last() != '/');
    }
    assert(s@.take(s@.len() as int) =~= s@);
    crate::text::string_of_chars(&out)
}

/// Whether `s` may be an HTTP header value: every character is a tab, or
/// printable (not below space, not DEL).
pub open spec fn header_value_ok(s: Seq<char>) -> bool {
    forall|i: int| 0 <= i < s.len() ==> (#[trigger] s[i] == '\t' || (s[i] >= ' ' && s[i] != '\x7f'))
}

/// `reqwest::header::HeaderValue::from_str`. Claims what the source of the
/// `http` crate shows: the value is refused exactly when a byte is neither a
/// tab nor at least a space and other than DEL (every byte of a non-ASCII
/// character is above DEL), and the refusal reads
/// `failed to parse header value`.
#[verifier::external_body]
pub(crate) fn header_value_error(v: &str) -> (r: Option<String>)
    ensures
        r is None <==> header_value_ok(v@),
        r is Some ==> r->0@ == "failed to parse header value"@,
{
    match reqwest::header::HeaderValue::from_str(v) {
        Ok(_) => None,
        Err(e) => Some(e.to_string()),
    }
}

/// The settings of a client of an OpenAI-compatible endpoint.
#[derive(Debug)]
pub struct LmClientSettings {
    pub endpoint: String,
    pub model_name: String,
    pub authorization: Option<String>,
    pub max_concurrency: usize,
    pub max_retries: u32,
    pub endpoint_type: EndpointType,
    pub system_prompt: Option<String>,
    pub include_stop_str_in_output: Option<bool>,
}

/// The `Authorization` header value for an API key.
pub open spec fn bearer(key: Seq<char>) -> Seq<char> {
    "Bearer "@ + key
}

impl LmClientSettings {
    /// The settings for `endpoint`; refused when the API key cannot be sent
    /// in a header.
    pub fn new(
        endpoint: &str,
        api_key: Option<&str>,
        model_name: &str,
        max_concurrency: usize,
        max_retries: u32,
        system_prompt: Option<String>,
        include_stop_str_in_output: Option<bool>,
    ) -> (r: Result<LmClientSettings, LmClientError>)
        ensures
            match api_key {
                Some(k) => r is Err <==> !header_value_ok(bearer(k@)),
                None => r is Ok,
            },
            r is Err ==> r->Err_0@ == ErrorView::Connection("invalid api key header: failed to parse header value"@),
            r is Ok ==> {
                let s = r->Ok_0;
                &&& s.endpoint@ == without_trailing_slashes(endpoint@)
                &&& s.model_name@ == model_name@
                &&& opt_view(s.authorization) == match api_key {
                    Some(k) => Some(bearer(k@)),
                    None => None,
                }
                &&& s.max_concurrency == max_concurrency
                &&& s.max_retries == max_retries
                &&& s.endpoint_type == endpoint_kind(endpoint@)
                &&& s.system_prompt == system_prompt
                &&& s.include_stop_str_in_output == include_stop_str_in_output
            },
    {
        let authorization = match api_key {
            Some(k) => {
                let mut v = crate::text::owned("Bearer ");
                v.append(k);
                match header_value_error(v.as_str()) {
                    Some(e) => {
                        proof {
                            reveal_strlit("invalid api key header: ");
                            reveal_strlit("failed to parse header value");
                            reveal_strlit("invalid api key header: failed to parse header value");
                        }
                        let mut m = crate::text::owned("invalid api key header: ");
                        m.append(e.as_str());
                        assert(m@ =~= "invalid api key header: failed to parse header value"@);
                        return Err(LmClientError::Connection(m));
                    },
                    None => Some(v),
                }
            },
            None => None,
        };
        Ok(LmClientSettings {
            endpoint: trim_trailing_slashes(endpoint),
            model_name: crate::text::owned(model_name),
            authorization,
            max_concurrency,
            max_retries,
            endpoint_type: endpoint_type_of(endpoint),
            system_prompt,
            include_stop_str_in_output,
        })
    }

    /// The URL chat completions are posted to.
    pub fn chat_completion_url(&self) -> (r: String)
        ensures
            r@ == self.endpoint@ + "/chat/completions"@,
    {
        let mut r = self.endpoint.clone();
        r.append("/chat/completions");
        r
    }

    /// The body of a chat completion request (see [`openai_body`]).
    /// `temperature` is the JSON number to send.
    pub fn build_request_body(
        &self,
        messages: &Vec<ChatMessage>,
        temperature: Option<&JsonValue>,
        max_tokens: Option<u32>,
        stop: Option<&str>,
        tools: Option<&JsonValue>,
        tool_choice: Option<&JsonValue>,
    ) -> (r: JsonValue)
        ensures
            jview(r) == JsonView::Object(openai_body(
                *self,
                messages_view(messages@),
                opt_jview(temperature),
                max_tokens,
                str_opt_view(stop),
                opt_jview(tools),
                opt_jview(tool_choice),
            )),
    {
        let ghost mv = messages_view(messages@);
        let mut ms: Vec<(String, JsonValue)> = Vec::new();
        push_member(&mut ms, "model", JsonValue::Str(self.model_name.clone()));
        let msgs = messages_json(&self.system_prompt, messages);
        push_member(&mut ms, "messages", msgs);
        let continues = self.endpoint_type == EndpointType::Vllm && messages.len() > 0
            && crate::messages::eq_lit(&messages[messages.len() - 1].role, "assistant");
        proof {
            if messages@.len() > 0 {
                assert(mv.last() == crate::messages::message_view(messages@.last()));
            }
        }
        let ghost cont_flags: Seq<(Seq<char>, JsonView)> = if continues {
            seq![("add_generation_prompt"@, JsonView::Bool(false)), ("continue_final_message"@, JsonView::Bool(true))]
        } else {
            Seq::empty()
        };
        let ghost stop_flag = match self.include_stop_str_in_output {
            Some(b) => Some(JsonView::Bool(b)),
            None => None,
        };
        if self.endpoint_type == EndpointType::Vllm && (continues || self.include_stop_str_in_output.is_some()) {
            let mut extra: Vec<(String, JsonValue)> = Vec::new();
            if continues {
                push_member(&mut extra, "add_generation_prompt", JsonValue::Bool(false));
                push_member(&mut extra, "continue_final_message", JsonValue::Bool(true));
            }
            match self.include_stop_str_in_output {
                Some(b) => push_member(&mut extra, "include_stop_str_in_output", JsonValue::Bool(b)),
                None => {},
            }
            assert(jview_members(extra@) =~= push_opt(cont_flags, "include_stop_str_in_output"@, stop_flag));
            push_member(&mut ms, "extra_body", JsonValue::Object(extra));
            let ghost with_extra = jview_members(ms@);
            if continues {
                push_member(&mut ms, "add_generation_prompt", JsonValue::Bool(false));
                push_member(&mut ms, "continue_final_message", JsonValue::Bool(true));
            }
            assert(jview_members(ms@) =~= with_extra + cont_flags);
            match self.include_stop_str_in_output {
                Some(b) => push_member(&mut ms, "include_stop_str_in_output", JsonValue::Bool(b)),
                None => {},
            }
        }
        let ghost vllm = jview_members(ms@);
        match temperature {
            Some(t) => push_member(&mut ms, "temperature", crate::json::copy_json(t)),
            None => {},
        }
        match max_tokens {
            Some(m) => push_member(&mut ms, "max_tokens", JsonValue::Number(crate::text::decimal_text(m as u64))),
            None => {},
        }
        match stop {
            Some(x) => push_member(&mut ms, "stop", JsonValue::Str(crate::text::owned(x))),
            None => {},
        }
        match tools {
            Some(t) => push_member(&mut ms, "tools", crate::json::copy_json(t)),
            None => {},
        }
        match tool_choice {
            Some(t) => push_member(&mut ms, "tool_choice", crate::json::copy_json(t)),
            None => {},
        }
        proof {
            let base = seq![
                ("model"@, JsonView::Str(self.model_name@)),
                ("messages"@, JsonView::Array(message_list(self.system_prompt, mv))),
            ];
            let spec_vllm = if self.endpoint_type == EndpointType::Vllm && (continues || stop_flag is Some) {
                push_opt(
                    push_opt(base, "extra_body"@, Some(JsonView::Object(push_opt(cont_flags, "include_stop_str_in_output"@, stop_flag)))) + cont_flags,
                    "include_stop_str_in_output"@,
                    stop_flag,
                )
            } else {
                base
            };
            assert(vllm =~= spec_vllm);
            assert(jview_members(ms@) =~= openai_body(
                *self,
                mv,
                opt_jview(temperature),
                max_tokens,
                str_opt_view(stop),
                opt_jview(tools),
                opt_jview(tool_choice),
            ));
        }
        JsonValue::Object(ms)
    }
}

/// The view of an optional JSON value.
pub open spec fn opt_jview(v: Option<&JsonValue>) -> Option<JsonView> {
    match v {
        Some(x) => Some(jview(*x)),
        None => None,
    }
}

/// The view of an optional string slice.
pub open spec fn str_opt_view(s: Option<&str>) -> Option<Seq<char>> {
    match s {
        Some(x) => Some(x@),
        None => None,
    }
}

/// The messages sent: the system prompt first when there is one, then the
/// conversation, each in its JSON form.
pub open spec fn message_list(system_prompt: Option<String>, msgs: Seq<MessageView>) -> Seq<JsonView> {
    let rest = msgs.map_values(|m: MessageView| message_jview(m));
    match system_prompt {
        Some(sp) => seq![JsonView::Object(seq![("role"@, JsonView::Str("system"@)), ("content"@, JsonView::Str(sp@))])] + rest,
        None => rest,
    }
}

/// `seq` with `(key, value)` added when `value` is present.
pub open spec fn push_opt(s: Seq<(Seq<char>, JsonView)>, key: Seq<char>, value: Option<JsonView>) -> Seq<(Seq<char>, JsonView)> {
    match value {
        Some(v) => s.push((key, v)),
        None => s,
    }
}

/// The body of a chat completion request: model and messages; for a vLLM
/// server, the continuation flags when the last message is the assistant's
/// and the stop-string flag when configured, both at the top level and under
/// `extra_body`; then temperature, max_tokens, stop, tools and tool_choice
/// when given.
pub open spec fn openai_body(
    s: LmClientSettings,
    msgs: Seq<MessageView>,
    temperature: Option<JsonView>,
    max_tokens: Option<u32>,
    stop: Option<Seq<char>>,
    tools: Option<JsonView>,
    tool_choice: Option<JsonView>,
) -> Seq<(Seq<char>, JsonView)> {
    let base = seq![
        ("model"@, JsonView::Str(s.model_name@)),
        ("messages"@, JsonView::Array(message_list(s.system_prompt, msgs))),
    ];
    let continues = s.endpoint_type == EndpointType::Vllm && msgs.len() > 0 && msgs.last().role == "assistant"@;
    let stop_flag = match s.include_stop_str_in_output {
        Some(b) => Some(JsonView::Bool(b)),
        None => None,
    };
    let cont_flags: Seq<(Seq<char>, JsonView)> = if continues {
        seq![("add_generation_prompt"@, JsonView::Bool(false)), ("continue_final_message"@, JsonView::Bool(true))]
    } else {
        Seq::empty()
    };
    let vllm = if s.endpoint_type == EndpointType::Vllm && (continues || stop_flag is Some) {
        push_opt(
            push_opt(base, "extra_body"@, Some(JsonView::Object(push_opt(cont_flags, "include_stop_str_in_output"@, stop_flag)))) + cont_flags,
            "include_stop_str_in_output"@,
            stop_flag,
        )
    } else {
        base
    };
    let max_tokens_json = match max_tokens {
        Some(m) => Some(JsonView::Number(decimal(m as nat))),
        None => None,
    };
    let stop_json = match stop {
        Some(x) => Some(JsonView::Str(x)),
        None => None,
    };
    push_opt(
        push_opt(
            push_opt(push_opt(push_opt(vllm, "temperature"@, temperature), "max_tokens"@, max_tokens_json), "stop"@, stop_json),
            "tools"@,
            tools,
        ),
        "tool_choice"@,
        tool_choice,
    )
}

/// The value of the first member named `key`, if any.
pub open spec fn member_value(ms: Seq<(Seq<char>, JsonView)>, key: Seq<char>) -> Option<JsonView>
    decreases ms.len(),
{
    if ms.len() == 0 {
        None
    } else {
        let before = member_value(ms.drop_last(), key);
        if before is Some {
            before
        } else if ms.last().0 == key {
            Some(ms.last().1)
        } else {
            None
        }
    }
}

proof fn lemma_member_push(ms: Seq<(Seq<char>, JsonView)>, m: (Seq<char>, JsonView))
    ensures
        forall|key: Seq<char>| #[trigger] member_value(ms.push(m), key) == (if member_value(ms, key) is Some {
            member_value(ms, key)
        } else if m.0 == key {
            Some(m.1)
        } else {
            None
        }),
{
    assert(ms.push(m).drop_last() =~= ms);
}

proof fn lemma_member_push_opt(ms: Seq<(Seq<char>, JsonView)>, k: Seq<char>, v: Option<JsonView>)
    ensures
        forall|key: Seq<char>| #[trigger] member_value(push_opt(ms, k, v), key) == (if member_value(ms, key) is Some {
            member_value(ms, key)
        } else if v is Some && k == key {
            v
        } else {
            None
        }),
{
    if let Some(x) = v {
        lemma_member_push(ms, (k, x));
    }
}

/// The member names of a request body differ from one another.
proof fn lemma_body_keys_distinct()
    ensures
        "model"@ != "messages"@,
        "model"@ != "add_generation_prompt"@,
        "model"@ != "continue_final_message"@,
        "model"@ != "include_stop_str_in_output"@,
        "model"@ != "extra_body"@,
        "model"@ != "temperature"@,
        "model"@ != "max_tokens"@,
        "model"@ != "stop"@,
        "model"@ != "tools"@,
        "model"@ != "tool_choice"@,
        "messages"@ != "add_generation_prompt"@,
        "messages"@ != "continue_final_message"@,
        "messages"@ != "include_stop_str_in_output"@,
        "messages"@ != "extra_body"@,
        "messages"@ != "temperature"@,
        "messages"@ != "max_tokens"@,
        "messages"@ != "stop"@,
        "messages"@ != "tools"@,
        "messages"@ != "tool_choice"@,
        "add_generation_prompt"@ != "continue_final_message"@,
        "add_generation_prompt"@ != "include_stop_str_in_output"@,
        "add_generation_prompt"@ != "extra_body"@,
        "add_generation_prompt"@ != "temperature"@,
        "add_generation_prompt"@ != "max_tokens"@,
        "add_generation_prompt"@ != "stop"@,
        "add_generation_prompt"@ != "tools"@,
        "add_generation_prompt"@ != "tool_choice"@,
        "continue_final_message"@ != "include_stop_str_in_output"@,
        "continue_final_message"@ != "extra_body"@,
        "continue_final_message"@ != "temperature"@,
        "continue_final_message"@ != "max_tokens"@,
        "continue_final_message"@ != "stop"@,
        "continue_final_message"@ != "tools"@,
        "continue_final_message"@ != "tool_choice"@,
        "include_stop_str_in_output"@ != "extra_body"@,
        "include_stop_str_in_output"@ != "temperature"@,
        "include_stop_str_in_output"@ != "max_tokens"@,
        "include_stop_str_in_output"@ != "stop"@,
        "include_stop_str_in_output"@ != "tools"@,
        "include_stop_str_in_output"@ != "tool_choice"@,
        "extra_body"@ != "temperature"@,
        "extra_body"@ != "max_tokens"@,
        "extra_body"@ != "stop"@,
        "extra_body"@ != "tools"@,
        "extra_body"@ != "tool_choice"@,
        "temperature"@ != "max_tokens"@,
        "temperature"@ != "stop"@,
        "temperature"@ != "tools"@,
        "temperature"@ != "tool_choice"@,
        "max_tokens"@ != "stop"@,
        "max_tokens"@ != "tools"@,
        "max_tokens"@ != "tool_choice"@,
        "stop"@ != "tools"@,
        "stop"@ != "tool_choice"@,
        "tools"@ != "tool_choice"@,
{
    reveal_strlit("model");
    reveal_strlit("messages");
    reveal_strlit("add_generation_prompt");
    reveal_strlit("continue_final_message");
    reveal_strlit("include_stop_str_in_output");
    reveal_strlit("extra_body");
    reveal_strlit("temperature");
    reveal_strlit("max_tokens");
    reveal_strlit("stop");
    reveal_strlit("tools");
    reveal_strlit("tool_choice");
    assert("model"@ != "messages"@) by {
        assert("model"@.len() != "messages"@.len());
    }
    assert("model"@ != "add_generation_prompt"@) by {
        assert("model"@.len() != "add_generation_prompt"@.len());
    }
    assert("model"@ != "continue_final_message"@) by {
        assert("model"@.len() != "continue_final_message"@.len());
    }
    assert("model"@ != "include_stop_str_in_output"@) by {
        assert("model"@.len() != "include_stop_str_in_output"@.len());
    }
    assert("model"@ != "extra_body"@) by {
        assert("model"@.len() != "extra_body"@.len());
    }
    assert("model"@ != "temperature"@) by {
        assert("model"@.len() != "temperature"@.len());
    }
    assert("model"@ != "max_tokens"@) by {
        assert("model"@.len() != "max_tokens"@.len());
    }
    assert("model"@ != "stop"@) by {
        assert("model"@.len() != "stop"@.len());
    }
    assert("model"@ != "tools"@) by {
        assert("model"@[0] != "tools"@[0]);
    }
    assert("model"@ != "tool_choice"@) by {
        assert("model"@.len() != "tool_choice"@.len());
    }
    assert("messages"@ != "add_generation_prompt"@) by {
        assert("messages"@.len() != "add_generation_prompt"@.len());
    }
    assert("messages"@ != "continue_final_message"@) by {
        assert("messages"@.len() != "continue_final_message"@.len());
    }
    assert("messages"@ != "include_stop_str_in_output"@) by {
        assert("messages"@.len() != "include_stop_str_in_output"@.len());
    }
    assert("messages"@ != "extra_body"@) by {
        assert("messages"@.len() != "extra_body"@.len());
    }
    assert("messages"@ != "temperature"@) by {
        assert("messages"@.len() != "temperature"@.len());
    }
    assert("messages"@ != "max_tokens"@) by {
        assert("messages"@.len() != "max_tokens"@.len());
    }
    assert("messages"@ != "stop"@) by {
        assert("messages"@.len() != "stop"@.len());
    }
    assert("messages"@ != "tools"@) by {
        assert("messages"@.len() != "tools"@.len());
    }
    assert("messages"@ != "tool_choice"@) by {
        assert("messages"@.len() != "tool_choice"@.len());
    }
    assert("add_generation_prompt"@ != "continue_final_message"@) by {
        assert("add_generation_prompt"@.len() != "continue_final_message"@.len());
    }
    assert("add_generation_prompt"@ != "include_stop_str_in_output"@) by {
        assert("add_generation_prompt"@.len() != "include_stop_str_in_output"@.len());
    }
    assert("add_generation_prompt"@ != "extra_body"@) by {
        assert("add_generation_prompt"@.len() != "extra_body"@.len());
    }
    assert("add_generation_prompt"@ != "temperature"@) by {
        assert("add_generation_prompt"@.len() != "temperature"@.len());
    }
    assert("add_generation_prompt"@ != "max_tokens"@) by {
        assert("add_generation_prompt"@.len() != "max_tokens"@.len());
    }
    assert("add_generation_prompt"@ != "stop"@) by {
        assert("add_generation_prompt"@.len() != "stop"@.len());
    }
    assert("add_generation_prompt"@ != "tools"@) by {
        assert("add_generation_prompt"@.len() != "tools"@.len());
    }
    assert("add_generation_prompt"@ != "tool_choice"@) by {
        assert("add_generation_prompt"@.len() != "tool_choice"@.len());
    }
    assert("continue_final_message"@ != "include_stop_str_in_output"@) by {
        assert("continue_final_message"@.len() != "include_stop_str_in_output"@.len());
    }
    assert("continue_final_message"@ != "extra_body"@) by {
        assert("continue_final_message"@.len() != "extra_body"@.len());
    }
    assert("continue_final_message"@ != "temperature"@) by {
        assert("continue_final_message"@.len() != "temperature"@.len());
    }
    assert("continue_final_message"@ != "max_tokens"@) by {
        assert("continue_final_message"@.len() != "max_tokens"@.len());
    }
    assert("continue_final_message"@ != "stop"@) by {
        assert("continue_final_message"@.len() != "stop"@.len());
    }
    assert("continue_final_message"@ != "tools"@) by {
        assert("continue_final_message"@.len() != "tools"@.len());
    }
    assert("continue_final_message"@ != "tool_choice"@) by {
        assert("continue_final_message"@.len() != "tool_choice"@.len());
    }
    assert("include_stop_str_in_output"@ != "extra_body"@) by {
        assert("include_stop_str_in_output"@.len() != "extra_body"@.len());
    }
    assert("include_stop_str_in_output"@ != "temperature"@) by {
        assert("include_stop_str_in_output"@.len() != "temperature"@.len());
    }
    assert("include_stop_str_in_output"@ != "max_tokens"@) by {
        assert("include_stop_str_in_output"@.len() != "max_tokens"@.len());
    }
    assert("include_stop_str_in_output"@ != "stop"@) by {
        assert("include_stop_str_in_output"@.len() != "stop"@.len());
    }
    assert("include_stop_str_in_output"@ != "tools"@) by {
        assert("include_stop_str_in_output"@.len() != "tools"@.len());
    }
    assert("include_stop_str_in_output"@ != "tool_choice"@) by {
        assert("include_stop_str_in_output"@.len() != "tool_choice"@.len());
    }
    assert("extra_body"@ != "temperature"@) by {
        assert("extra_body"@.len() != "temperature"@.len());
    }
    assert("extra_body"@ != "max_tokens"@) by {
        assert("extra_body"@[0] != "max_tokens"@[0]);
    }
    assert("extra_body"@ != "stop"@) by {
        assert("extra_body"@.len() != "stop"@.len());
    }
    assert("extra_body"@ != "tools"@) by {
        assert("extra_body"@.len() != "tools"@.len());
    }
    assert("extra_body"@ != "tool_choice"@) by {
        assert("extra_body"@.len() != "tool_choice"@.len());
    }
    assert("temperature"@ != "max_tokens"@) by {
        assert("temperature"@.len() != "max_tokens"@.len());
    }
    assert("temperature"@ != "stop"@) by {
        assert("temperature"@.len() != "stop"@.len());
    }
    assert("temperature"@ != "tools"@) by {
        assert("temperature"@.len() != "tools"@.len());
    }
    assert("temperature"@ != "tool_choice"@) by {
        assert("temperature"@[1] != "tool_choice"@[1]);
    }
    assert("max_tokens"@ != "stop"@) by {
        assert("max_tokens"@.len() != "stop"@.len());
    }
    assert("max_tokens"@ != "tools"@) by {
        assert("max_tokens"@.len() != "tools"@.len());
    }
    assert("max_tokens"@ != "tool_choice"@) by {
        assert("max_tokens"@.len() != "tool_choice"@.len());
    }
    assert("stop"@ != "tools"@) by {
        assert("stop"@.len() != "tools"@.len());
    }
    assert("stop"@ != "tool_choice"@) by {
        assert("stop"@.len() != "tool_choice"@.len());
    }
    assert("tools"@ != "tool_choice"@) by {
        assert("tools"@.len() != "tool_choice"@.len());
    }
}

/// What the request body holds, member by member: the model; the messages,
/// the system prompt first when there is one; for a vLLM server the
/// continuation flags exactly when the last message is the assistant's and
/// the stop-string flag exactly when configured, both at the top level and
/// under `extra_body`, which is absent otherwise; and temperature,
/// max_tokens, stop, tools and tool_choice exactly when given.
pub proof fn law_request_body_members(
    s: LmClientSettings,
    msgs: Seq<MessageView>,
    temperature: Option<JsonView>,
    max_tokens: Option<u32>,
    stop: Option<Seq<char>>,
    tools: Option<JsonView>,
    tool_choice: Option<JsonView>,
)
    ensures
        ({
            let b = openai_body(s, msgs, temperature, max_tokens, stop, tools, tool_choice);
            let vllm = s.endpoint_type == EndpointType::Vllm;
            let continues = vllm && msgs.len() > 0 && msgs.last().role == "assistant"@;
            let stop_flag = match s.include_stop_str_in_output {
                Some(x) => Some(JsonView::Bool(x)),
                None => None,
            };
            let extra = push_opt(
                if continues {
                    seq![("add_generation_prompt"@, JsonView::Bool(false)), ("continue_final_message"@, JsonView::Bool(true))]
                } else {
                    Seq::empty()
                },
                "include_stop_str_in_output"@,
                stop_flag,
            );
            &&& member_value(b, "model"@) == Some(JsonView::Str(s.model_name@))
            &&& member_value(b, "messages"@) == Some(JsonView::Array(message_list(s.system_prompt, msgs)))
            &&& member_value(b, "add_generation_prompt"@) == (if continues { Some(JsonView::Bool(false)) } else { None::<JsonView> })
            &&& member_value(b, "continue_final_message"@) == (if continues { Some(JsonView::Bool(true)) } else { None::<JsonView> })
            &&& member_value(b, "include_stop_str_in_output"@) == (if vllm { stop_flag } else { None::<JsonView> })
            &&& member_value(b, "extra_body"@) == (if vllm && (continues || stop_flag is Some) {
                Some(JsonView::Object(extra))
            } else {
                None::<JsonView>
            })
            &&& member_value(b, "temperature"@) == temperature
            &&& member_value(b, "max_tokens"@) == (match max_tokens {
                Some(m) => Some(JsonView::Number(decimal(m as nat))),
                None => None::<JsonView>,
            })
            &&& member_value(b, "stop"@) == (match stop {
                Some(x) => Some(JsonView::Str(x)),
                None => None::<JsonView>,
            })
            &&& member_value(b, "tools"@) == tools
            &&& member_value(b, "tool_choice"@) == tool_choice
        }),
{
    lemma_body_keys_distinct();
    let base = seq![
        ("model"@, JsonView::Str(s.model_name@)),
        ("messages"@, JsonView::Array(message_list(s.system_prompt, msgs))),
    ];
    let empty = Seq::<(Seq<char>, JsonView)>::empty();
    assert(base =~= empty.push(base[0]).push(base[1]));
    lemma_member_push(empty, base[0]);
    lemma_member_push(empty.push(base[0]), base[1]);
    let vllm = s.endpoint_type == EndpointType::Vllm;
    let continues = vllm && msgs.len() > 0 && msgs.last().role == "assistant"@;
    let stop_flag = match s.include_stop_str_in_output {
        Some(x) => Some(JsonView::Bool(x)),
        None => None,
    };
    let cont_flags: Seq<(Seq<char>, JsonView)> = if continues {
        seq![("add_generation_prompt"@, JsonView::Bool(false)), ("continue_final_message"@, JsonView::Bool(true))]
    } else {
        Seq::empty()
    };
    let extra = push_opt(cont_flags, "include_stop_str_in_output"@, stop_flag);
    let b1 = push_opt(base, "extra_body"@, Some(JsonView::Object(extra)));
    lemma_member_push_opt(base, "extra_body"@, Some(JsonView::Object(extra)));
    let b2 = b1 + cont_flags;
    if continues {
        assert(b2 =~= b1.push(cont_flags[0]).push(cont_flags[1]));
        lemma_member_push(b1, cont_flags[0]);
        lemma_member_push(b1.push(cont_flags[0]), cont_flags[1]);
    } else {
        assert(b2 =~= b1);
    }
    let b3 = push_opt(b2, "include_stop_str_in_output"@, stop_flag);
    lemma_member_push_opt(b2, "include_stop_str_in_output"@, stop_flag);
    let v = if vllm && (continues || stop_flag is Some) {
        b3
    } else {
        base
    };
    let max_tokens_json = match max_tokens {
        Some(m) => Some(JsonView::Number(decimal(m as nat))),
        None => None,
    };
    let stop_json = match stop {
        Some(x) => Some(JsonView::Str(x)),
        None => None,
    };
    let t1 = push_opt(v, "temperature"@, temperature);
    lemma_member_push_opt(v, "temperature"@, temperature);
    let t2 = push_opt(t1, "max_tokens"@, max_tokens_json);
    lemma_member_push_opt(t1, "max_tokens"@, max_tokens_json);
    let t3 = push_opt(t2, "stop"@, stop_json);
    lemma_member_push_opt(t2, "stop"@, stop_json);
    let t4 = push_opt(t3, "tools"@, tools);
    lemma_member_push_opt(t3, "tools"@, tools);
    lemma_member_push_opt(t4, "tool_choice"@, tool_choice);
}

fn member(key: &str, value: JsonValue) -> (r: (String, JsonValue))
    ensures
        r.0@ == key@,
        r.1 == value,
{
    (crate::text::owned(key), value)
}

/// Adds the member `(key, value)` at the end.
pub fn push_member(ms: &mut Vec<(String, JsonValue)>, key: &str, value: JsonValue)
    ensures
        jview_members(final(ms)@) == jview_members(old(ms)@).push((key@, jview(value))),
{
    let ghost v = jview(value);
    ms.push((crate::text::owned(key), value));
    assert(final(ms)@.drop_last() =~= old(ms)@);
}

/// The messages array of a request (see [`message_list`]).
pub fn messages_json(system_prompt: &Option<String>, messages: &Vec<ChatMessage>) -> (r: JsonValue)
    ensures
        jview(r) == JsonView::Array(message_list(*system_prompt, messages_view(messages@))),
{
    let mut items: Vec<JsonValue> = Vec::new();
    let ghost mv = messages_view(messages@);
    let ghost lead: Seq<JsonView> = match system_prompt {
        Some(sp) => seq![JsonView::Object(seq![("role"@, JsonView::Str("system"@)), ("content"@, JsonView::Str(sp@))])],
        None => Seq::empty(),
    };
    match system_prompt {
        Some(sp) => {
            let sm = vec![member("role", JsonValue::Str(crate::text::owned("system"))), member("content", JsonValue::Str(sp.clone()))];
            proof {
                crate::json::lemma_jview_members(sm@);
                assert(jview_members(sm@) =~= seq![("role"@, JsonView::Str("system"@)), ("content"@, JsonView::Str(sp@))]);
            }
            items.push(JsonValue::Object(sm));
        },
        None => {},
    }
    let k = items.len();
    proof {
        crate::json::lemma_jview_items(items@);
        assert(jview_items(items@) =~= lead);
    }
    let mut i: usize = 0;
    while i < messages.len()
        invariant
            i <= messages@.len(),
            k == lead.len(),
            items@.len() == k + i,
            mv == messages_view(messages@),
            forall|j: int| 0 <= j < k ==> jview(#[trigger] items@[j]) == lead[j],
            forall|j: int| 0 <= j < i ==> jview(#[trigger] items@[k + j]) == message_jview(mv[j]),
        decreases messages@.len() - i,
    {
        items.push(message_json(&messages[i]));
        proof {
            assert(mv[i as int] == crate::messages::message_view(messages@[i as int]));
        }
        i = i + 1;
    }
    proof {
        crate::json::lemma_jview_items(items@);
        assert(jview_items(items@) =~= message_list(*system_prompt, mv)) by {
            assert forall|j: int| 0 <= j < items@.len() implies jview_items(items@)[j] == message_list(*system_prompt, mv)[j] by {
                if j >= k {
                    assert(jview(items@[k + (j - k)]) == message_jview(mv[j - k]));
                }
            }
        }
    }
    JsonValue::Array(items)
}

/// The retry state of a request: failed attempts so far and the next pause.
#[derive(Debug, Clone, Copy, PartialEq, Eq, Structural)]
pub struct Backoff {
    pub attempt: u32,
    pub delay_ms: u64,
}

/// What to do after a failed attempt.
#[derive(Debug, Clone, Copy, PartialEq, Eq, Structural)]
pub enum RetryDecision {
    /// Report the error.
    GiveUp,
    /// Pause for `delay_ms` milliseconds (plus a random jitter below a
    /// second), then try again.
    RetryAfter { delay_ms: u64 },
}

/// The first pause, in milliseconds.
pub const INITIAL_DELAY_MS: u64 = 500;

/// The longest pause, in milliseconds.
pub const MAX_DELAY_MS: u64 = 60000;

/// The state and decision after a failed attempt: the attempt is counted;
/// the request is given up when the error is not retryable or `max_retries`
/// attempts have failed; otherwise it waits the current delay, and the next
/// delay doubles, up to a minute.
pub open spec fn after_failure(state: Backoff, retryable: bool, max_retries: u32) -> (Backoff, RetryDecision) {
    let attempt = (state.attempt + 1) as u32;
    if !retryable || state.attempt + 1 >= max_retries {
        (Backoff { attempt, delay_ms: state.delay_ms }, RetryDecision::GiveUp)
    } else {
        let next = if 2 * state.delay_ms <= MAX_DELAY_MS {
            (2 * state.delay_ms) as u64
        } else {
            MAX_DELAY_MS
        };
        (Backoff { attempt, delay_ms: next }, RetryDecision::RetryAfter { delay_ms: state.delay_ms })
    }
}

impl Backoff {
    /// No attempt failed yet; the first pause is half a second.
    pub fn new() -> (r: Backoff)
        ensures
            r == (Backoff { attempt: 0, delay_ms: INITIAL_DELAY_MS }),
    {
        Backoff { attempt: 0, delay_ms: INITIAL_DELAY_MS }
    }

    /// After a failed attempt: give up when the error is not retryable or
    /// `max_retries` attempts have failed; otherwise pause for the current
    /// delay and double it, up to a minute (see [`after_failure`]).
    pub fn on_failure(self, retryable: bool, max_retries: u32) -> (r: (Backoff, RetryDecision))
        requires
            self.attempt < u32::MAX,
        ensures
            r == after_failure(self, retryable, max_retries),
    {
        let attempt = self.attempt + 1;
        if !retryable || attempt >= max_retries {
            (Backoff { attempt, delay_ms: self.delay_ms }, RetryDecision::GiveUp)
        } else {
            let next = if self.delay_ms <= MAX_DELAY_MS / 2 { 2 * self.delay_ms } else { MAX_DELAY_MS };
            (Backoff { attempt, delay_ms: next }, RetryDecision::RetryAfter { delay_ms: self.delay_ms })
        }
    }
}

/// The error of a failed attempt decides alone whether it may be retried.
pub fn retry_after_error(state: Backoff, error: &LmClientError, max_retries: u32) -> (r: (Backoff, RetryDecision))
    requires
        state.attempt < u32::MAX,
    ensures
        r == after_failure(state, error@ is RateLimit || error@ is ServerError || error@ is Connection, max_retries),
{
    let retryable = error.is_retryable();
    state.on_failure(retryable, max_retries)
}

/// Pauses never exceed a minute, never shrink, and a request is given up
/// after at most `max_retries` failed attempts (after the first, when
/// `max_retries` is 0).
pub proof fn law_backoff_bounded(state: Backoff, retryable: bool, max_retries: u32)
    requires
        state.delay_ms <= MAX_DELAY_MS,
        state.attempt < u32::MAX,
    ensures
        ({
            let (next, decision) = after_failure(state, retryable, max_retries);
            &&& next.attempt == state.attempt + 1
            &&& next.delay_ms <= MAX_DELAY_MS
            &&& next.delay_ms >= state.delay_ms
            &&& (decision matches RetryDecision::RetryAfter { delay_ms } ==> delay_ms <= MAX_DELAY_MS)
            &&& (next.attempt >= max_retries ==> decision is GiveUp)
        }),
{
}

/// How many consecutive failed attempts a request makes before it gives up,
/// starting from `state`, when the failures come with the retryability
/// flags `retryable` (all of them, when it never gives up).
pub open spec fn failed_attempts(state: Backoff, retryable: Seq<bool>, max_retries: u32) -> nat
    decreases retryable.len(),
{
    if retryable.len() == 0 {
        0
    } else {
        let (next, decision) = after_failure(state, retryable[0], max_retries);
        if decision is GiveUp {
            1
        } else {
            1 + failed_attempts(next, retryable.drop_first(), max_retries)
        }
    }
}

/// The most attempts a request makes: `max_retries`, and at least one.
pub open spec fn attempt_limit(max_retries: u32) -> int {
    if max_retries >= 1 {
        max_retries as int
    } else {
        1
    }
}

proof fn lemma_failed_attempts(state: Backoff, retryable: Seq<bool>, max_retries: u32)
    requires
        state.attempt < attempt_limit(max_retries),
    ensures
        ({
            let n = failed_attempts(state, retryable, max_retries);
            &&& n <= retryable.len()
            &&& retryable.len() > 0 ==> 1 <= n && state.attempt + n <= attempt_limit(max_retries)
            &&& forall|i: int| 0 <= i < n - 1 ==> #[trigger] retryable[i]
            &&& 0 < n < retryable.len() ==> (!retryable[n - 1] || state.attempt + n == attempt_limit(max_retries))
            &&& n == retryable.len() || !retryable[n - 1] || state.attempt + n == attempt_limit(max_retries)
        }),
    decreases retryable.len(),
{
    if retryable.len() > 0 {
        let (next, decision) = after_failure(state, retryable[0], max_retries);
        if !(decision is GiveUp) {
            let rest = retryable.drop_first();
            lemma_failed_attempts(next, rest, max_retries);
            let n = failed_attempts(state, retryable, max_retries);
            assert forall|i: int| 0 <= i < n - 1 implies #[trigger] retryable[i] by {
                if i > 0 {
                    assert(retryable[i] == rest[i - 1]);
                }
            }
            if rest.len() > 0 {
                assert(retryable[n - 1] == rest[n - 2]);
            }
        }
    }
}

/// Over a whole request: from a fresh state, a request that keeps failing
/// is tried at least once and at most `max_retries` times (once, when
/// `max_retries` is 0); every failure but the last was retryable; and it
/// stops early only at a failure that is not retryable or at that limit.
pub proof fn law_retry_attempts_bounded(retryable: Seq<bool>, max_retries: u32)
    requires
        retryable.len() > 0,
    ensures
        ({
            let n = failed_attempts(Backoff { attempt: 0, delay_ms: INITIAL_DELAY_MS }, retryable, max_retries);
            &&& 1 <= n <= attempt_limit(max_retries)
            &&& n <= retryable.len()
            &&& forall|i: int| 0 <= i < n - 1 ==> #[trigger] retryable[i]
            &&& n == retryable.len() || !retryable[n - 1] || n == attempt_limit(max_retries)
        }),
{
    lemma_failed_attempts(Backoff { attempt: 0, delay_ms: INITIAL_DELAY_MS }, retryable, max_retries);
}

} // verus!
