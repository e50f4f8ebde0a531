//! Multi-provider settings: provider names, their default API bases, the
//! headers each provider expects and the request bodies sent to them.

use vstd::prelude::*;
use crate::client::{header_value_ok, messages_json, message_list, push_member, push_opt, str_opt_view, opt_jview, without_trailing_slashes};
use crate::errors::{ErrorView, LmClientError};
use crate::json::{jinsert, jview, jview_members, JsonValue, JsonView};
use crate::messages::{messages_view, ChatMessage, MessageView};
use crate::text::{ascii_lowercase, decimal, is_ascii_text, spec_lowercase};

verus! {

/// A provider of language models.
#[derive(Debug, Clone, PartialEq, Eq)]
pub enum Provider {
    OpenAI,
    Anthropic,
    Bedrock,
    VertexAI,
    Custom(String),
}

/// The mathematical value of a [`Provider`].
pub enum ProviderView {
    OpenAI,
    Anthropic,
    Bedrock,
    VertexAI,
    Custom(Seq<char>),
}

impl View for Provider {
    type V = ProviderView;

    open spec fn view(&self) -> ProviderView {
        match self {
            Provider::OpenAI => ProviderView::OpenAI,
            Provider::Anthropic => ProviderView::Anthropic,
            Provider::Bedrock => ProviderView::Bedrock,
            Provider::VertexAI => ProviderView::VertexAI,
            Provider::Custom(s) => ProviderView::Custom(s@),
        }
    }
}

/// The provider a lower-case name stands for; other names are custom.
pub open spec fn provider_named(lower: Seq<char>) -> ProviderView {
    if lower == "openai"@ {
        ProviderView::OpenAI
    } else if lower == "anthropic"@ {
        ProviderView::Anthropic
    } else if lower == "bedrock"@ || lower == "aws_bedrock"@ {
        ProviderView::Bedrock
    } else if lower == "vertex_ai"@ || lower == "vertex"@ {
        ProviderView::VertexAI
    } else {
        ProviderView::Custom(lower)
    }
}

/// The name of a provider.
pub open spec fn provider_name(p: ProviderView) -> Seq<char> {
    match p {
        ProviderView::OpenAI => "openai"@,
        ProviderView::Anthropic => "anthropic"@,
        ProviderView::Bedrock => "bedrock"@,
        ProviderView::VertexAI => "vertex_ai"@,
        ProviderView::Custom(s) => s,
    }
}

/// The API base used when none is given, for the providers that have one.
pub open spec fn default_base(p: ProviderView) -> Option<Seq<char>> {
    match p {
        ProviderView::OpenAI => Some("https://api.openai.com/v1"@),
        ProviderView::Anthropic => Some("https://api.anthropic.com/v1"@),
        _ => None,
    }
}

impl Provider {
    /// The provider named `s`, ignoring case.
    pub fn parse(s: &str) -> (r: Provider)
        ensures
            r@ == provider_named(spec_lowercase(s@)),
            is_ascii_text(s@) ==> r@ == provider_named(ascii_lowercase(s@)),
    {
        let lower = crate::text::lowercase_text(s);
        if crate::messages::eq_lit(&lower, "openai") {
            Provider::OpenAI
        } else if crate::messages::eq_lit(&lower, "anthropic") {
            Provider::Anthropic
        } else if crate::messages::eq_lit(&lower, "bedrock") || crate::messages::eq_lit(&lower, "aws_bedrock") {
            Provider::Bedrock
        } else if crate::messages::eq_lit(&lower, "vertex_ai") || crate::messages::eq_lit(&lower, "vertex") {
            Provider::VertexAI
        } else {
            Provider::Custom(lower)
        }
    }

    /// The provider's name.
    pub fn as_str(&self) -> (r: &str)
        ensures
            r@ == provider_name(self@),
    {
        match self {
            Provider::OpenAI => "openai",
            Provider::Anthropic => "anthropic",
            Provider::Bedrock => "bedrock",
            Provider::VertexAI => "vertex_ai",
            Provider::Custom(s) => s.as_str(),
        }
    }

    /// The API base used when none is given (see [`default_base`]).
    pub fn default_api_base(&self) -> (r: Option<&'static str>)
        ensures
            str_opt_view(r) == default_base(self@),
    {
        match self {
            Provider::OpenAI => Some("https://api.openai.com/v1"),
            Provider::Anthropic => Some("https://api.anthropic.com/v1"),
            _ => None,
        }
    }
}

proof fn lemma_ascii_lowercase_idempotent(s: Seq<char>)
    requires
        is_ascii_text(s),
    ensures
        is_ascii_text(ascii_lowercase(s)),
        ascii_lowercase(ascii_lowercase(s)) == ascii_lowercase(s),
{
    let l = ascii_lowercase(s);
    assert forall|i: int| 0 <= i < l.len() implies (#[trigger] l[i] as u32) < 128 by {
        assert((s[i] as u32) < 128);
    }
    assert(ascii_lowercase(l) =~= l);
}

/// A name made of lower-case letters and underscores is its own ASCII
/// lower-case form.
proof fn lemma_plain_name(s: Seq<char>)
    requires
        forall|i: int| 0 <= i < s.len() ==> ('a' <= #[trigger] s[i] && s[i] <= 'z') || s[i] == '_',
    ensures
        is_ascii_text(s),
        ascii_lowercase(s) == s,
{
    assert(ascii_lowercase(s) =~= s);
}

/// Reading names back: each named provider is read from its own name, and
/// a provider read from an ASCII name is read again from its own name; a
/// provider's name is the lower-cased name it was read from, except for the
/// aliases `aws_bedrock` and `vertex`.
pub proof fn law_provider_name_round_trip(p: ProviderView, s: Seq<char>, lower: Seq<char>)
    ensures
        !(p is Custom) ==> is_ascii_text(provider_name(p)) && provider_named(ascii_lowercase(provider_name(p))) == p,
        is_ascii_text(s) ==> ({
            let q = provider_named(ascii_lowercase(s));
            is_ascii_text(provider_name(q)) && provider_named(ascii_lowercase(provider_name(q))) == q
        }),
        lower != "aws_bedrock"@ && lower != "vertex"@ ==> provider_name(provider_named(lower)) == lower,
{
    reveal_strlit("openai");
    reveal_strlit("anthropic");
    reveal_strlit("bedrock");
    reveal_strlit("vertex_ai");
    reveal_strlit("aws_bedrock");
    reveal_strlit("vertex");
    assert("openai"@ != "anthropic"@) by {
        assert("openai"@.len() != "anthropic"@.len());
    }
    assert("openai"@ != "bedrock"@) by {
        assert("openai"@.len() != "bedrock"@.len());
    }
    assert("openai"@ != "aws_bedrock"@) by {
        assert("openai"@.len() != "aws_bedrock"@.len());
    }
    assert("openai"@ != "vertex_ai"@) by {
        assert("openai"@.len() != "vertex_ai"@.len());
    }
    assert("openai"@ != "vertex"@) by {
        assert("openai"@[0] != "vertex"@[0]);
    }
    assert("anthropic"@ != "bedrock"@) by {
        assert("anthropic"@.len() != "bedrock"@.len());
    }
    assert("anthropic"@ != "aws_bedrock"@) by {
        assert("anthropic"@.len() != "aws_bedrock"@.len());
    }
    assert("anthropic"@ != "vertex_ai"@) by {
        assert("anthropic"@[0] != "vertex_ai"@[0]);
    }
    assert("anthropic"@ != "vertex"@) by {
        assert("anthropic"@.len() != "vertex"@.len());
    }
    assert("bedrock"@ != "aws_bedrock"@) by {
        assert("bedrock"@.len() != "aws_bedrock"@.len());
    }
    assert("bedrock"@ != "vertex_ai"@) by {
        assert("bedrock"@.len() != "vertex_ai"@.len());
    }
    assert("bedrock"@ != "vertex"@) by {
        assert("bedrock"@.len() != "vertex"@.len());
    }
    assert("aws_bedrock"@ != "vertex_ai"@) by {
        assert("aws_bedrock"@.len() != "vertex_ai"@.len());
    }
    assert("aws_bedrock"@ != "vertex"@) by {
        assert("aws_bedrock"@.len() != "vertex"@.len());
    }
    assert("vertex_ai"@ != "vertex"@) by {
        assert("vertex_ai"@.len() != "vertex"@.len());
    }
    lemma_plain_name("openai"@);
    lemma_plain_name("anthropic"@);
    lemma_plain_name("bedrock"@);
    lemma_plain_name("vertex_ai"@);
    if is_ascii_text(s) {
        let l = ascii_lowercase(s);
        lemma_ascii_lowercase_idempotent(s);
        let q = provider_named(l);
        if q is Custom {
            assert(provider_name(q) == l);
        }
    }
}

/// The API base: the given one, else the provider's default.
pub open spec fn effective_base(p: ProviderView, api_base: Option<Seq<char>>) -> Option<Seq<char>> {
    match api_base {
        Some(b) => Some(b),
        None => default_base(p),
    }
}

/// The message of the error for a provider without API base.
pub open spec fn missing_base_message(p: ProviderView) -> Seq<char> {
    "no api_base provided and no default for provider '"@ + provider_name(p) + "'"@
}

/// The authentication headers a provider expects for an API key: Anthropic
/// takes the key in `x-api-key` and a fixed `anthropic-version`; the others
/// take `Authorization: Bearer <key>`.
pub open spec fn auth_headers(p: ProviderView, api_key: Option<Seq<char>>) -> Seq<(Seq<char>, Seq<char>)> {
    match p {
        ProviderView::Anthropic => match api_key {
            Some(k) => seq![("x-api-key"@, k), ("anthropic-version"@, "2023-06-01"@)],
            None => seq![("anthropic-version"@, "2023-06-01"@)],
        },
        _ => match api_key {
            Some(k) => seq![("authorization"@, "Bearer "@ + k)],
            None => Seq::empty(),
        },
    }
}

/// The views of a list of header pairs.
pub open spec fn headers_view(h: Seq<(String, String)>) -> Seq<(Seq<char>, Seq<char>)> {
    h.map_values(|p: (String, String)| (p.0@, p.1@))
}

/// The settings of a multi-provider client. Temperatures are the JSON
/// numbers to send.
#[derive(Debug)]
pub struct LiteLlmSettings {
    pub model_name: String,
    pub provider: Provider,
    pub api_base: String,
    pub headers: Vec<(String, String)>,
    pub system_prompt: Option<String>,
    pub max_concurrency: usize,
    pub max_retries: u32,
    pub default_temperature: Option<JsonValue>,
    pub default_max_tokens: Option<u32>,
    pub default_stop: Option<String>,
    pub extra_kwargs: Vec<(String, JsonValue)>,
}

fn pair(k: &str, v: String) -> (r: (String, String))
    ensures
        r.0@ == k@,
        r.1@ == v@,
{
    (crate::text::owned(k), v)
}

fn invalid_header_error() -> (r: LmClientError)
    ensures
        r@ == ErrorView::Connection("invalid api key header: failed to parse header value"@),
{
    proof {
        reveal_strlit("invalid api key header: ");
        reveal_strlit("failed to parse header value");
        reveal_strlit("invalid api key header: failed to parse header value");
    }
    let mut m = crate::text::owned("invalid api key header: ");
    m.append("failed to parse header value");
    assert(m@ =~= "invalid api key header: failed to parse header value"@);
    LmClientError::Connection(m)
}

/// Whether the key can be sent in the provider's header.
pub open spec fn key_sendable(p: ProviderView, api_key: Option<Seq<char>>) -> bool {
    match api_key {
        None => true,
        Some(k) => match p {
            ProviderView::Anthropic => header_value_ok(k),
            _ => header_value_ok("Bearer "@ + k),
        },
    }
}

impl LiteLlmSettings {
    /// The settings of a client of `provider`; refused without an API base
    /// (given or default), or when the key cannot be sent in a header.
    pub fn new(
        model_name: &str,
        provider: &str,
        api_key: Option<&str>,
        api_base: Option<&str>,
        system_prompt: Option<String>,
        max_concurrency: usize,
        max_retries: u32,
        temperature: Option<JsonValue>,
        max_tokens: Option<u32>,
        stop: Option<String>,
        extra_kwargs: Vec<(String, JsonValue)>,
    ) -> (r: Result<LiteLlmSettings, LmClientError>)
        ensures
            ({
                let p = provider_named(spec_lowercase(provider@));
                let key = str_opt_view(api_key);
                match effective_base(p, str_opt_view(api_base)) {
                    None => r is Err && r->Err_0@ == ErrorView::Connection(missing_base_message(p)),
                    Some(b) => if !key_sendable(p, key) {
                        r is Err && r->Err_0@ == ErrorView::Connection(
                            "invalid api key header: failed to parse header value"@,
                        )
                    } else {
                        r is Ok && {
                            let s = r->Ok_0;
                            &&& s.model_name@ == model_name@
                            &&& s.provider@ == p
                            &&& s.api_base@ == without_trailing_slashes(b)
                            &&& headers_view(s.headers@) == auth_headers(p, key)
                            &&& s.system_prompt == system_prompt
                            &&& s.max_concurrency == max_concurrency
                            &&& s.max_retries == max_retries
                            &&& s.default_temperature == temperature
                            &&& s.default_max_tokens == max_tokens
                            &&& s.default_stop == stop
                            &&& s.extra_kwargs == extra_kwargs
                        }
                    },
                }
            }),
    {
        let p = Provider::parse(provider);
        let base = match api_base {
            Some(b) => crate::text::owned(b),
            None => match p.default_api_base() {
                Some(d) => crate::text::owned(d),
                None => {
                    let mut m = crate::text::owned("no api_base provided and no default for provider '");
                    m.append(p.as_str());
                    m.append("'");
                    return Err(LmClientError::Connection(m));
                },
            },
        };
        let mut headers: Vec<(String, String)> = Vec::new();
        match &p {
            Provider::Anthropic => {
                match api_key {
                    Some(k) => {
                        if crate::client::header_value_error(k).is_none() {
                            headers.push(pair("x-api-key", crate::text::owned(k)));
                        } else {
                            return Err(invalid_header_error());
                        }
                    },
                    None => {},
                }
                headers.push(pair("anthropic-version", crate::text::owned("2023-06-01")));
            },
            _ => {
                match api_key {
                    Some(k) => {
                        let mut v = crate::text::owned("Bearer ");
                        v.append(k);
                        if crate::client::header_value_error(v.as_str()).is_none() {
                            headers.push(pair("authorization", v));
                        } else {
                            return Err(invalid_header_error());
                        }
                    },
                    None => {},
                }
            },
        }
        assert(headers_view(headers@) =~= auth_headers(p@, str_opt_view(api_key)));
        Ok(LiteLlmSettings {
            model_name: crate::text::owned(model_name),
            provider: p,
            api_base: crate::client::trim_trailing_slashes(base.as_str()),
            headers,
            system_prompt,
            max_concurrency,
            max_retries,
            default_temperature: temperature,
            default_max_tokens: max_tokens,
            default_stop: stop,
            extra_kwargs,
        })
    }

    /// The URL chat completions are posted to: `/messages` for Anthropic,
    /// `/chat/completions` otherwise, under the API base.
    pub fn chat_completion_url(&self) -> (r: String)
        ensures
            r@ == self.api_base@ + (if self.provider@ is Anthropic {
                "/messages"@
            } else {
                "/chat/completions"@
            }),
    {
        let mut r = self.api_base.clone();
        match &self.provider {
            Provider::Anthropic => r.append("/messages"),
            _ => r.append("/chat/completions"),
        }
        r
    }

    /// The body of a chat completion request (see [`litellm_body`]).
    pub fn build_request_body(
        &self,
        messages: &Vec<ChatMessage>,
        temperature: Option<&JsonValue>,
        max_tokens: Option<u32>,
        stop: Option<&str>,
        tools: Option<&JsonValue>,
        tool_choice: Option<&JsonValue>,
    ) -> (r: JsonValue)
        ensures
            jview(r) == JsonView::Object(litellm_body(
                *self,
                messages_view(messages@),
                opt_jview(temperature),
                max_tokens,
                str_opt_view(stop),
                opt_jview(tools),
                opt_jview(tool_choice),
            )),
    {
        let ghost mv = messages_view(messages@);
        let mut ms: Vec<(String, JsonValue)> = Vec::new();
        push_member(&mut ms, "model", JsonValue::Str(self.model_name.clone()));
        let msgs = messages_json(&self.system_prompt, messages);
        push_member(&mut ms, "messages", msgs);
        let t = match temperature {
            Some(t) => crate::json::copy_json(t),
            None => match &self.default_temperature {
                Some(d) => crate::json::copy_json(d),
                None => JsonValue::Number(crate::text::owned("0.7")),
            },
        };
        push_member(&mut ms, "temperature", t);
        let mt = match max_tokens {
            Some(m) => Some(m),
            None => self.default_max_tokens,
        };
        match mt {
            Some(m) => push_member(&mut ms, "max_tokens", JsonValue::Number(crate::text::decimal_text(m as u64))),
            None => {},
        }
        let st = match stop {
            Some(x) => Some(crate::text::owned(x)),
            None => match &self.default_stop {
                Some(d) => Some(d.clone()),
                None => None,
            },
        };
        match st {
            Some(x) => push_member(&mut ms, "stop", JsonValue::Str(x)),
            None => {},
        }
        match tools {
            Some(x) => push_member(&mut ms, "tools", crate::json::copy_json(x)),
            None => {},
        }
        match tool_choice {
            Some(x) => push_member(&mut ms, "tool_choice", crate::json::copy_json(x)),
            None => {},
        }
        let ghost fixed = jview_members(ms@);
        proof {
            assert(fixed =~= litellm_fixed(
                *self,
                mv,
                opt_jview(temperature),
                max_tokens,
                str_opt_view(stop),
                opt_jview(tools),
                opt_jview(tool_choice),
            ));
            crate::json::lemma_jview_members(self.extra_kwargs@);
        }
        let mut i: usize = 0;
        while i < self.extra_kwargs.len()
            invariant
                i <= self.extra_kwargs@.len(),
                jview_members(ms@) == with_extras(fixed, jview_members(self.extra_kwargs@), i as int),
                forall|j: int| 0 <= j < self.extra_kwargs@.len() ==> #[trigger] jview_members(self.extra_kwargs@)[j] == (
                    self.extra_kwargs@[j].0@,
                    jview(self.extra_kwargs@[j].1),
                ),
                jview_members(self.extra_kwargs@).len() == self.extra_kwargs@.len(),
            decreases self.extra_kwargs@.len() - i,
        {
            let k = self.extra_kwargs[i].0.clone();
            let v = crate::json::copy_json(&self.extra_kwargs[i].1);
            crate::json::insert_member(&mut ms, k, v);
            i = i + 1;
        }
        JsonValue::Object(ms)
    }
}

/// The body's members before the extra parameters: model, messages,
/// temperature (given, default, else 0.7), max_tokens and stop (given, else
/// default), tools and tool_choice.
pub open spec fn litellm_fixed(
    s: LiteLlmSettings,
    msgs: Seq<MessageView>,
    temperature: Option<JsonView>,
    max_tokens: Option<u32>,
    stop: Option<Seq<char>>,
    tools: Option<JsonView>,
    tool_choice: Option<JsonView>,
) -> Seq<(Seq<char>, JsonView)> {
    let t = match temperature {
        Some(t) => t,
        None => match s.default_temperature {
            Some(d) => jview(d),
            None => JsonView::Number("0.7"@),
        },
    };
    let mt = match max_tokens {
        Some(m) => Some(m),
        None => s.default_max_tokens,
    };
    let st = match stop {
        Some(x) => Some(x),
        None => crate::voting::opt_view(s.default_stop),
    };
    let base = seq![
        ("model"@, JsonView::Str(s.model_name@)),
        ("messages"@, JsonView::Array(message_list(s.system_prompt, msgs))),
        ("temperature"@, t),
    ];
    let mtj = match mt {
        Some(m) => Some(JsonView::Number(decimal(m as nat))),
        None => None,
    };
    let stj = match st {
        Some(x) => Some(JsonView::Str(x)),
        None => None,
    };
    push_opt(push_opt(push_opt(push_opt(base, "max_tokens"@, mtj), "stop"@, stj), "tools"@, tools), "tool_choice"@, tool_choice)
}

/// `ms` with the first `n` extra parameters set, in order.
pub open spec fn with_extras(ms: Seq<(Seq<char>, JsonView)>, extras: Seq<(Seq<char>, JsonView)>, n: int) -> Seq<(Seq<char>, JsonView)>
    decreases n,
{
    if n <= 0 {
        ms
    } else {
        jinsert(with_extras(ms, extras, n - 1), extras[n - 1].0, extras[n - 1].1)
    }
}

/// The body of a request: the fixed members, then each extra parameter set
/// in turn (an extra parameter replaces a member of the same name).
pub open spec fn litellm_body(
    s: LiteLlmSettings,
    msgs: Seq<MessageView>,
    temperature: Option<JsonView>,
    max_tokens: Option<u32>,
    stop: Option<Seq<char>>,
    tools: Option<JsonView>,
    tool_choice: Option<JsonView>,
) -> Seq<(Seq<char>, JsonView)> {
    with_extras(
        litellm_fixed(s, msgs, temperature, max_tokens, stop, tools, tool_choice),
        jview_members(s.extra_kwargs@),
        s.extra_kwargs@.len() as int,
    )
}

} // verus!
