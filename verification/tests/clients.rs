use its_hub_rs::client::{Backoff, EndpointType, LmClientSettings, RetryDecision};
use its_hub_rs::errors::LmClientError;
use its_hub_rs::json::JsonValue;
use its_hub_rs::messages::{ChatMessage, Content};
use its_hub_rs::providers::{LiteLlmSettings, Provider};

fn test_messages() -> Vec<ChatMessage> {
    vec![ChatMessage {
        role: "user".to_string(),
        content: Some(Content::Text("Hello".to_string())),
        tool_calls: None,
        tool_call_id: None,
    }]
}

fn continuation_messages() -> Vec<ChatMessage> {
    vec![
        ChatMessage {
            role: "user".to_string(),
            content: Some(Content::Text("Hello".to_string())),
            tool_calls: None,
            tool_call_id: None,
        },
        ChatMessage {
            role: "assistant".to_string(),
            content: Some(Content::Text("Starting...".to_string())),
            tool_calls: None,
            tool_call_id: None,
        },
    ]
}

fn member<'a>(v: &'a JsonValue, key: &str) -> Option<&'a JsonValue> {
    match v {
        JsonValue::Object(ms) => ms.iter().rev().find(|(k, _)| k == key).map(|(_, x)| x),
        _ => None,
    }
}

fn n(text: &str) -> JsonValue {
    JsonValue::Number(text.to_string())
}

fn s(text: &str) -> JsonValue {
    JsonValue::Str(text.to_string())
}

#[test]
fn test_provider_from_str() {
    assert_eq!(Provider::parse("openai"), Provider::OpenAI);
    assert_eq!(Provider::parse("OpenAI"), Provider::OpenAI);
    assert_eq!(Provider::parse("anthropic"), Provider::Anthropic);
    assert_eq!(Provider::parse("bedrock"), Provider::Bedrock);
    assert_eq!(Provider::parse("aws_bedrock"), Provider::Bedrock);
    assert_eq!(Provider::parse("vertex_ai"), Provider::VertexAI);
    assert_eq!(Provider::parse("vertex"), Provider::VertexAI);
    assert_eq!(Provider::parse("ollama"), Provider::Custom("ollama".to_string()));
}

#[test]
fn provider_names_and_bases() {
    assert_eq!(Provider::VertexAI.as_str(), "vertex_ai");
    assert_eq!(Provider::Custom("x".to_string()).as_str(), "x");
    assert_eq!(Provider::OpenAI.default_api_base(), Some("https://api.openai.com/v1"));
    assert_eq!(Provider::Bedrock.default_api_base(), None);
}

#[test]
fn test_litellm_client_provider_config() {
    let client = LiteLlmSettings::new(
        "gpt-4",
        "openai",
        Some("sk-test"),
        None,
        Some("You are helpful.".to_string()),
        8,
        3,
        Some(n("0.5")),
        Some(1024),
        None,
        vec![],
    )
    .unwrap();
    assert_eq!(client.model_name, "gpt-4");
    assert_eq!(client.provider, Provider::OpenAI);
    let body = client.build_request_body(&test_messages(), None, None, None, None, None);
    assert_eq!(member(&body, "model"), Some(&s("gpt-4")));
    assert_eq!(member(&body, "temperature"), Some(&n("0.5")));
    assert_eq!(member(&body, "max_tokens"), Some(&n("1024")));
    match member(&body, "messages").unwrap() {
        JsonValue::Array(items) => {
            assert_eq!(member(&items[0], "role"), Some(&s("system")));
            assert_eq!(member(&items[0], "content"), Some(&s("You are helpful.")));
        },
        _ => panic!("messages must be an array"),
    }
}

#[test]
fn test_litellm_client_anthropic_url() {
    let client =
        LiteLlmSettings::new("sonnet-3", "anthropic", Some("sk-ant-test"), None, None, 8, 3, None, None, None, vec![])
            .unwrap();
    assert_eq!(client.chat_completion_url(), "https://api.anthropic.com/v1/messages");
    assert_eq!(client.headers[0], ("x-api-key".to_string(), "sk-ant-test".to_string()));
}

#[test]
fn test_litellm_client_custom_api_base() {
    let client = LiteLlmSettings::new(
        "my-model",
        "ollama",
        None,
        Some("http://localhost:11434/v1"),
        None,
        8,
        3,
        None,
        None,
        None,
        vec![],
    )
    .unwrap();
    assert_eq!(client.chat_completion_url(), "http://localhost:11434/v1/chat/completions");
}

#[test]
fn test_litellm_client_no_api_base_custom_provider_errors() {
    let result = LiteLlmSettings::new("model", "some-custom", None, None, None, 8, 3, None, None, None, vec![]);
    assert!(result.is_err());
    assert_eq!(
        result.err().unwrap(),
        LmClientError::Connection("no api_base provided and no default for provider 'some-custom'".to_string())
    );
}

#[test]
fn test_litellm_client_extra_kwargs() {
    let extra = vec![("top_p".to_string(), n("0.9")), ("seed".to_string(), n("42"))];
    let client = LiteLlmSettings::new("gpt-4", "openai", Some("key"), None, None, 8, 3, None, None, None, extra).unwrap();
    let body = client.build_request_body(&test_messages(), None, None, None, None, None);
    assert_eq!(member(&body, "top_p"), Some(&n("0.9")));
    assert_eq!(member(&body, "seed"), Some(&n("42")));
}

#[test]
fn test_litellm_client_override_defaults() {
    let client = LiteLlmSettings::new(
        "gpt-4",
        "openai",
        Some("key"),
        None,
        None,
        8,
        3,
        Some(n("0.5")),
        Some(512),
        Some("\n\n".to_string()),
        vec![],
    )
    .unwrap();
    let body = client.build_request_body(&test_messages(), Some(&n("0.9")), Some(2048), Some("STOP"), None, None);
    assert_eq!(member(&body, "temperature"), Some(&n("0.9")));
    assert_eq!(member(&body, "max_tokens"), Some(&n("2048")));
    assert_eq!(member(&body, "stop"), Some(&s("STOP")));
}

#[test]
fn test_litellm_client_default_temperature_fallback() {
    let client = LiteLlmSettings::new("gpt-4", "openai", Some("key"), None, None, 8, 3, None, None, None, vec![]).unwrap();
    let body = client.build_request_body(&test_messages(), None, None, None, None, None);
    assert_eq!(member(&body, "temperature"), Some(&n("0.7")));
}

#[test]
fn litellm_extra_kwargs_override_members() {
    let extra = vec![("temperature".to_string(), n("1.5"))];
    let client = LiteLlmSettings::new("gpt-4", "openai", None, None, None, 8, 3, None, None, None, extra).unwrap();
    let body = client.build_request_body(&test_messages(), None, None, None, None, None);
    assert_eq!(member(&body, "temperature"), Some(&n("1.5")));
    match &body {
        JsonValue::Object(ms) => assert_eq!(ms.iter().filter(|(k, _)| k == "temperature").count(), 1),
        _ => panic!(),
    }
}

#[test]
fn invalid_key_is_refused() {
    let r = LmClientSettings::new("http://x/v1", Some("bad\nkey"), "m", 8, 3, None, None);
    assert_eq!(
        r.err().unwrap(),
        LmClientError::Connection("invalid api key header: failed to parse header value".to_string())
    );
}

#[test]
fn build_request_body_basic() {
    let client = LmClientSettings::new("http://localhost:8100/v1", None, "test-model", 8, 3, None, None).unwrap();
    let body = client.build_request_body(&test_messages(), Some(&n("0.7")), Some(100), None, None, None);
    assert_eq!(member(&body, "model"), Some(&s("test-model")));
    assert_eq!(member(&body, "temperature"), Some(&n("0.7")));
    assert_eq!(member(&body, "max_tokens"), Some(&n("100")));
    assert!(member(&body, "stop").is_none());
}

#[test]
fn build_request_body_vllm_assistant_continuation() {
    let client = LmClientSettings::new("http://localhost:8100/v1", None, "test-model", 8, 3, None, None).unwrap();
    let body = client.build_request_body(&continuation_messages(), None, None, None, None, None);
    assert_eq!(member(&body, "add_generation_prompt"), Some(&JsonValue::Bool(false)));
    assert_eq!(member(&body, "continue_final_message"), Some(&JsonValue::Bool(true)));
    let extra = member(&body, "extra_body").unwrap();
    assert_eq!(member(extra, "add_generation_prompt"), Some(&JsonValue::Bool(false)));
    assert_eq!(member(extra, "continue_final_message"), Some(&JsonValue::Bool(true)));
}

#[test]
fn build_request_body_openai_no_vllm_fields() {
    let client = LmClientSettings::new("https://api.openai.com/v1", Some("key"), "gpt-4", 8, 3, None, None).unwrap();
    assert_eq!(client.endpoint_type, EndpointType::OpenAI);
    let body = client.build_request_body(&continuation_messages(), None, None, None, None, None);
    assert!(member(&body, "add_generation_prompt").is_none());
    assert!(member(&body, "continue_final_message").is_none());
    assert!(member(&body, "extra_body").is_none());
}

#[test]
fn error_from_response_classification() {
    let err = LmClientError::from_response(429, "too many requests");
    assert!(matches!(err, LmClientError::RateLimit { .. }));
    assert!(err.is_retryable());

    let err = LmClientError::from_response(400, r#"{"error":{"message":"maximum context length exceeded"}}"#);
    assert!(matches!(err, LmClientError::ContextLength { .. }));
    assert!(!err.is_retryable());

    let err = LmClientError::from_response(401, "unauthorized");
    assert!(matches!(err, LmClientError::Authentication { .. }));
    assert!(!err.is_retryable());

    let err = LmClientError::from_response(403, "forbidden");
    assert!(matches!(err, LmClientError::Authentication { .. }));

    let err = LmClientError::from_response(400, "invalid model");
    assert!(matches!(err, LmClientError::BadRequest { .. }));
    assert!(!err.is_retryable());

    let err = LmClientError::from_response(500, "internal server error");
    assert!(matches!(err, LmClientError::ServerError { .. }));
    assert!(err.is_retryable());

    let err = LmClientError::from_response(502, "bad gateway");
    assert!(matches!(err, LmClientError::ServerError { .. }));
    assert!(err.is_retryable());
}

#[test]
fn error_json_body_parsing() {
    let body = r#"{"error":{"message":"rate limit exceeded","type":"rate_limit"}}"#;
    let err = LmClientError::from_response(429, body);
    match err {
        LmClientError::RateLimit { message, .. } => assert_eq!(message, "rate limit exceeded"),
        _ => panic!("expected RateLimit"),
    }
}

#[test]
fn build_request_body_prepends_system_prompt() {
    let client = LmClientSettings::new(
        "http://localhost:8100/v1",
        None,
        "test-model",
        8,
        3,
        Some("You are a math tutor.".to_string()),
        None,
    )
    .unwrap();
    let body = client.build_request_body(&test_messages(), None, None, None, None, None);
    match member(&body, "messages").unwrap() {
        JsonValue::Array(items) => {
            assert_eq!(items.len(), 2);
            assert_eq!(member(&items[0], "role"), Some(&s("system")));
            assert_eq!(member(&items[0], "content"), Some(&s("You are a math tutor.")));
            assert_eq!(member(&items[1], "role"), Some(&s("user")));
        },
        _ => panic!(),
    }
}

#[test]
fn build_request_body_no_system_prompt_when_none() {
    let client = LmClientSettings::new("http://localhost:8100/v1", None, "test-model", 8, 3, None, None).unwrap();
    let body = client.build_request_body(&test_messages(), None, None, None, None, None);
    match member(&body, "messages").unwrap() {
        JsonValue::Array(items) => {
            assert_eq!(items.len(), 1);
            assert_eq!(member(&items[0], "role"), Some(&s("user")));
        },
        _ => panic!(),
    }
}

#[test]
fn build_request_body_vllm_include_stop_str() {
    let client = LmClientSettings::new("http://localhost:8100/v1", None, "test-model", 8, 3, None, Some(true)).unwrap();
    let body = client.build_request_body(&test_messages(), None, None, None, None, None);
    assert_eq!(member(&body, "include_stop_str_in_output"), Some(&JsonValue::Bool(true)));
    assert_eq!(member(member(&body, "extra_body").unwrap(), "include_stop_str_in_output"), Some(&JsonValue::Bool(true)));
}

#[test]
fn build_request_body_openai_no_include_stop_str() {
    let client = LmClientSettings::new("https://api.openai.com/v1", Some("key"), "gpt-4", 8, 3, None, Some(true)).unwrap();
    let body = client.build_request_body(&test_messages(), None, None, None, None, None);
    assert!(member(&body, "include_stop_str_in_output").is_none());
    assert!(member(&body, "extra_body").is_none());
}

#[test]
fn build_request_body_vllm_assistant_with_stop_str() {
    let client = LmClientSettings::new("http://localhost:8100/v1", None, "test-model", 8, 3, None, Some(false)).unwrap();
    let body = client.build_request_body(&continuation_messages(), None, None, None, None, None);
    let extra = member(&body, "extra_body").unwrap();
    assert_eq!(member(extra, "add_generation_prompt"), Some(&JsonValue::Bool(false)));
    assert_eq!(member(extra, "continue_final_message"), Some(&JsonValue::Bool(true)));
    assert_eq!(member(extra, "include_stop_str_in_output"), Some(&JsonValue::Bool(false)));
    assert_eq!(member(&body, "include_stop_str_in_output"), Some(&JsonValue::Bool(false)));
}

#[test]
fn endpoint_is_trimmed_and_url_built() {
    let client = LmClientSettings::new("http://h:1/v1//", Some("k"), "m", 4, 2, None, None).unwrap();
    assert_eq!(client.endpoint, "http://h:1/v1");
    assert_eq!(client.chat_completion_url(), "http://h:1/v1/chat/completions");
    assert_eq!(client.authorization, Some("Bearer k".to_string()));
}

#[test]
fn lm_client_error_rate_limit() {
    let err = LmClientError::from_response(429, "too many requests");
    assert!(matches!(err, LmClientError::RateLimit { .. }));
    assert!(err.is_retryable());
}

#[test]
fn lm_client_error_context_length() {
    let body = r#"{"error":{"message":"This model's maximum context length is 4096 tokens"}}"#;
    let err = LmClientError::from_response(400, body);
    assert!(matches!(err, LmClientError::ContextLength { .. }));
    assert!(!err.is_retryable());
}

#[test]
fn lm_client_error_auth() {
    let err = LmClientError::from_response(401, "invalid api key");
    assert!(matches!(err, LmClientError::Authentication { .. }));
    assert!(!err.is_retryable());
}

#[test]
fn lm_client_error_bad_request() {
    let err = LmClientError::from_response(400, "invalid model");
    assert!(matches!(err, LmClientError::BadRequest { .. }));
    assert!(!err.is_retryable());
}

#[test]
fn lm_client_error_server() {
    let err = LmClientError::from_response(500, "internal error");
    assert!(matches!(err, LmClientError::ServerError { .. }));
    assert!(err.is_retryable());
}

#[test]
fn lm_client_error_json_body() {
    let body = r#"{"error":{"message":"rate limit exceeded","type":"rate_limit"}}"#;
    let err = LmClientError::from_response(429, body);
    match err {
        LmClientError::RateLimit { message, .. } => assert_eq!(message, "rate limit exceeded"),
        _ => panic!("expected RateLimit"),
    }
}

#[test]
fn error_descriptions_and_status() {
    let err = LmClientError::from_response(503, "busy");
    assert_eq!(err.status_code(), Some(503));
    assert_eq!(err.describe(), "server error: busy");
    assert_eq!(LmClientError::Connection("x".to_string()).status_code(), None);
}

#[test]
fn backoff_doubles_and_gives_up() {
    let b = Backoff::new();
    let (b, d) = b.on_failure(true, 3);
    assert_eq!(d, RetryDecision::RetryAfter { delay_ms: 500 });
    let (b, d) = b.on_failure(true, 3);
    assert_eq!(d, RetryDecision::RetryAfter { delay_ms: 1000 });
    let (_, d) = b.on_failure(true, 3);
    assert_eq!(d, RetryDecision::GiveUp);
    let (_, d) = Backoff::new().on_failure(false, 3);
    assert_eq!(d, RetryDecision::GiveUp);
    let (b, _) = Backoff { attempt: 0, delay_ms: 40000 }.on_failure(true, 10);
    assert_eq!(b.delay_ms, 60000);
}

#[test]
fn zero_retries_still_makes_one_attempt() {
    let (b, d) = Backoff::new().on_failure(true, 0);
    assert_eq!(d, RetryDecision::GiveUp);
    assert_eq!(b.attempt, 1);
    let (_, d) = Backoff::new().on_failure(true, 1);
    assert_eq!(d, RetryDecision::GiveUp);
}

#[test]
fn provider_names_read_back() {
    for p in [Provider::OpenAI, Provider::Anthropic, Provider::Bedrock, Provider::VertexAI] {
        assert_eq!(Provider::parse(p.as_str()), p);
    }
    let custom = Provider::parse("MyProvider");
    assert_eq!(custom.as_str(), "myprovider");
    assert_eq!(Provider::parse(custom.as_str()), custom);
    assert_eq!(Provider::parse("AWS_Bedrock").as_str(), "bedrock");
}
