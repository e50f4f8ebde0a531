use its_hub_rs::api::{completion_response, config_response, default_budget, default_true, models_response, passthrough_response};
use its_hub_rs::configuration::{build_algorithm, default_provider, plan_configuration, AlgorithmPlan, ConfigRequest, InnerPlan, RewardPlan, TemperatureMethod};
use its_hub_rs::api::{response_usage, ChatCompletionUsage};
use its_hub_rs::gateway::{
    cached_algorithm_name, reply_after_run, route_request, ChatReply,
    admin_authorized, health_body, parse_u32, readiness, resolve_algorithm, response_headers, validate_request, AlgorithmChoice,
    AppError, HeaderText, TemperatureCheck,
};
use its_hub_rs::json::JsonValue;

fn bad_request(r: Result<u32, AppError>) -> String {
    match r {
        Err(AppError::BadRequest(m)) => m,
        other => panic!("expected a bad request, got {:?}", other),
    }
}

#[test]
fn request_defaults() {
    assert_eq!(default_budget(), 8);
    assert!(default_true());
    assert_eq!(default_provider(), "openai");
}

#[test]
fn request_validation_order() {
    assert!(matches!(validate_request(Some(true), 0, None, None, None, 8), Err(AppError::StreamingNotSupported)));
    assert_eq!(bad_request(validate_request(None, 0, None, None, None, 8)), "messages must not be empty");
    let hot = TemperatureCheck { in_range: false, shown: "3.5".to_string() };
    assert_eq!(
        bad_request(validate_request(None, 1, Some(hot), None, None, 8)),
        "temperature must be between 0.0 and 2.0, got 3.5"
    );
    assert_eq!(bad_request(validate_request(None, 1, None, Some(0), None, 8)), "max_tokens must be greater than 0");
    assert_eq!(
        bad_request(validate_request(None, 1, None, None, Some(HeaderText::Invalid), 8)),
        "x-its-budget header contains invalid characters"
    );
    assert_eq!(
        bad_request(validate_request(None, 1, None, None, Some(HeaderText::Text("abc".to_string())), 8)),
        "x-its-budget header must be a valid integer, got 'abc'"
    );
    assert_eq!(bad_request(validate_request(None, 1, None, None, None, 0)), "budget must be between 1 and 1000, got 0");
    assert_eq!(bad_request(validate_request(None, 1, None, None, None, 1001)), "budget must be between 1 and 1000, got 1001");
}

#[test]
fn request_budget_from_header_or_body() {
    assert_eq!(validate_request(None, 1, None, None, None, 8).unwrap(), 8);
    assert_eq!(validate_request(Some(false), 2, None, Some(10), Some(HeaderText::Text("+3".to_string())), 8).unwrap(), 3);
    let ok = TemperatureCheck { in_range: true, shown: "0.7".to_string() };
    assert_eq!(validate_request(None, 1, Some(ok), None, Some(HeaderText::Text("1000".to_string())), 8).unwrap(), 1000);
}

#[test]
fn parse_u32_edges() {
    assert_eq!(parse_u32("0"), Some(0));
    assert_eq!(parse_u32("4294967295"), Some(u32::MAX));
    assert_eq!(parse_u32("4294967296"), None);
    assert_eq!(parse_u32("+"), None);
    assert_eq!(parse_u32("-1"), None);
    assert_eq!(parse_u32(""), None);
    assert_eq!(parse_u32(" 5"), None);
}

#[test]
fn admin_token_checks() {
    assert!(admin_authorized(None, &None));
    assert!(admin_authorized(Some(""), &None));
    assert!(!admin_authorized(Some("secret"), &None));
    assert!(!admin_authorized(Some("secret"), &Some(HeaderText::Text("secret".to_string()))));
    assert!(admin_authorized(Some("secret"), &Some(HeaderText::Text("Bearer secret".to_string()))));
    assert!(!admin_authorized(Some("secret"), &Some(HeaderText::Text("Bearer other".to_string()))));
    assert!(!admin_authorized(Some("secret"), &Some(HeaderText::Invalid)));
}

#[test]
fn algorithm_override() {
    let configured = "best-of-n".to_string();
    assert_eq!(resolve_algorithm(&configured, &None), (AlgorithmChoice::Configured, "best-of-n".to_string()));
    assert_eq!(
        resolve_algorithm(&configured, &Some("self-consistency".to_string())),
        (AlgorithmChoice::DefaultSelfConsistency, "self-consistency".to_string())
    );
    assert_eq!(
        resolve_algorithm(&configured, &Some("beam-search".to_string())),
        (AlgorithmChoice::Configured, "best-of-n".to_string())
    );
}

#[test]
fn app_error_answers() {
    let e = AppError::ModelNotFound("m".to_string());
    assert_eq!(e.status_code(), 404);
    assert_eq!(e.describe(), "model not found: m");
    assert_eq!(e.answer(), "m");
    assert_eq!(AppError::NotConfigured.status_code(), 503);
    assert_eq!(AppError::NotConfigured.answer(), "service not configured");
    assert_eq!(AppError::StreamingNotSupported.status_code(), 501);
    assert_eq!(AppError::Unauthorized("x".to_string()).status_code(), 401);
    let up = AppError::Upstream(its_hub_rs::errors::LmClientError::Connection("down".to_string()));
    assert_eq!(up.status_code(), 502);
    assert_eq!(up.answer(), "upstream error: connection error: down");
    let body = AppError::BadRequest("nope".to_string()).body();
    assert_eq!(
        body,
        JsonValue::Object(vec![(
            "error".to_string(),
            JsonValue::Object(vec![
                ("message".to_string(), JsonValue::Str("nope".to_string())),
                ("type".to_string(), JsonValue::Str("server_error".to_string())),
            ])
        )])
    );
}

#[test]
fn readiness_and_health() {
    assert_eq!(readiness(true, 1).0, 200);
    let (code, body) = readiness(false, 0);
    assert_eq!(code, 503);
    assert_eq!(
        body,
        JsonValue::Object(vec![
            ("status".to_string(), JsonValue::Str("not_ready".to_string())),
            ("algorithm_configured".to_string(), JsonValue::Bool(false)),
            ("models_connected".to_string(), JsonValue::Number("0".to_string())),
        ])
    );
    let h = health_body(&None, 0);
    assert_eq!(
        h,
        JsonValue::Object(vec![
            ("status".to_string(), JsonValue::Str("ok".to_string())),
            ("algorithm".to_string(), JsonValue::Null),
            ("models".to_string(), JsonValue::Number("0".to_string())),
        ])
    );
    let hdrs = response_headers(true, &"passthrough".to_string(), 12);
    assert_eq!(hdrs[0], ("x-its-cache-hit".to_string(), "true".to_string()));
    assert_eq!(hdrs[2], ("x-its-latency-ms".to_string(), "12".to_string()));
}

#[test]
fn responses_assembled() {
    let m = models_response(&vec!["gpt-4".to_string()]);
    assert_eq!(m.data[0].id, "gpt-4");
    assert_eq!(m.data[0].object, "model");
    assert_eq!(m.data[0].owned_by, "its-hub-rs");
    let c = config_response("done".to_string());
    assert_eq!(c.status, "success");
    let r = completion_response("id1".to_string(), 7, "m".to_string(), JsonValue::Null, None);
    assert_eq!(r.object, "chat.completion");
    assert_eq!(r.choices.len(), 1);
    assert_eq!(r.choices[0].finish_reason, "stop");
    assert_eq!(r.usage.total_tokens, 0);
    let p = passthrough_response("id2".to_string(), 7, "m".to_string(), JsonValue::Null, None);
    assert_eq!(p.metadata, Some(JsonValue::Object(vec![("passthrough".to_string(), JsonValue::Bool(true))])));
}

fn config(alg: &str) -> ConfigRequest<f64> {
    ConfigRequest {
        provider: "openai".to_string(),
        endpoint: "http://localhost:8100/v1/".to_string(),
        api_key: None,
        model: "m".to_string(),
        alg: alg.to_string(),
        regex_patterns: None,
        tool_vote: None,
        exclude_tool_args: None,
        rm_name: None,
        rm_endpoint: None,
        system_prompt: None,
        temperature: None,
        max_tokens: None,
        n: None,
        stop: None,
        max_concurrent_requests: None,
        replace_error_with_message: None,
        return_response_only: None,
        include_stop_str_in_output: None,
        step_token: None,
        stop_token: None,
        num_iterations: None,
        beam_width: None,
        inner_alg: None,
        temperature_method: None,
        prm_endpoint: None,
        passthrough_on_error: None,
        cache_enabled: None,
        cache_ttl_seconds: None,
        cache_max_entries: None,
        request_timeout_seconds: None,
        judge_model: None,
        judge_criterion: None,
        judge_temperature: None,
        judge_max_tokens: None,
        judge_base_url: None,
        judge_api_key: None,
    }
}

fn refusal(c: &ConfigRequest<f64>) -> String {
    match build_algorithm(c, 0.8, 0.0) {
        Err(AppError::BadRequest(m)) => m,
        Err(e) => panic!("unexpected error {:?}", e),
        Ok(_) => panic!("expected a refusal"),
    }
}

#[test]
fn configuration_refusals() {
    assert!(refusal(&config("nope")).starts_with("unsupported algorithm: nope. Supported: self-consistency"));
    assert_eq!(refusal(&config("beam-search")), "step_token required for beam-search");
    let mut c = config("particle-gibbs");
    c.step_token = Some("\n".to_string());
    assert_eq!(refusal(&c), "prm_endpoint required for particle-gibbs");
    assert_eq!(refusal(&config("best-of-n")), "rm_endpoint required for best-of-n");
    let mut c = config("best-of-n");
    c.rm_name = Some("llm-judge".to_string());
    assert_eq!(refusal(&c), "judge_model required when rm_name is llm-judge");
    assert_eq!(refusal(&config("planning-wrapper")), "inner_alg required for planning-wrapper");
    let mut c = config("planning-wrapper");
    c.inner_alg = Some("best-of-n".to_string());
    assert_eq!(refusal(&c), "rm_endpoint required for best-of-n inner algorithm");
    c.inner_alg = Some("beam-search".to_string());
    assert_eq!(refusal(&c), "unsupported inner algorithm for planning-wrapper: beam-search");
    let mut c = config("self-consistency");
    c.regex_patterns = Some(vec!["[bad".to_string()]);
    assert!(refusal(&c).starts_with("invalid regex pattern: "));
}

#[test]
fn configuration_plans() {
    let mut c = config("beam-search");
    c.step_token = Some("\n\n".to_string());
    c.prm_endpoint = Some("http://prm".to_string());
    match build_algorithm(&c, 0.8, 0.0) {
        Ok(AlgorithmPlan::BeamSearch { step_generation, prm_endpoint, beam_width }) => {
            assert_eq!(beam_width, 2);
            assert_eq!(prm_endpoint, "http://prm");
            assert_eq!(step_generation.max_steps, 10);
            assert_eq!(step_generation.temperature, 0.8);
        },
        _ => panic!("expected beam search"),
    }
    let mut c = config("entropic-particle-filtering");
    c.step_token = Some("\n".to_string());
    c.prm_endpoint = Some("http://prm".to_string());
    c.temperature_method = Some("entropy".to_string());
    assert!(matches!(
        build_algorithm(&c, 0.8, 0.0),
        Ok(AlgorithmPlan::EntropicParticleFiltering { temperature_method: TemperatureMethod::Entropy, .. })
    ));
    let mut c = config("best-of-n");
    c.rm_name = Some("llm-judge".to_string());
    c.judge_model = Some("judge".to_string());
    match build_algorithm(&c, 0.8, 0.0) {
        Ok(AlgorithmPlan::BestOfN { reward: RewardPlan::Judge { criterion, max_tokens, client, .. }, .. }) => {
            assert_eq!(criterion, "overall_quality");
            assert_eq!(max_tokens, 4096);
            assert_eq!(client.endpoint, "http://localhost:8100/v1");
        },
        _ => panic!("expected a judge"),
    }
    let mut c = config("planning-wrapper");
    c.inner_alg = Some("self-consistency".to_string());
    assert!(matches!(build_algorithm(&c, 0.8, 0.0), Ok(AlgorithmPlan::PlanningWrapper { inner: InnerPlan::SelfConsistency(_) })));
}

#[test]
fn configuration_installs() {
    let mut c = config("self-consistency");
    c.cache_enabled = Some(true);
    c.cache_ttl_seconds = Some(60);
    let plan = plan_configuration(&c, None, &None, 0.8, 0.0).unwrap();
    assert_eq!(plan.message, "Initialized m with self-consistency algorithm");
    assert_eq!(plan.cache, Some((10000, 60)));
    assert_eq!(plan.client.max_concurrency, 64);
    assert_eq!(plan.client.max_retries, 8);
    assert_eq!(plan.client.endpoint, "http://localhost:8100/v1");
    assert_eq!(plan.request_timeout_seconds, 30);
    let refused = plan_configuration(&c, Some("token"), &None, 0.8, 0.0);
    assert!(matches!(refused, Err(AppError::Unauthorized(_))));
}

#[test]
fn requests_are_routed_or_refused_in_order() {
    let m = "m".to_string();
    let sc = Some("best-of-n".to_string());
    assert!(matches!(route_request(&None, false, &m, &None), Err(AppError::NotConfigured)));
    match route_request(&sc, false, &m, &None) {
        Err(AppError::ModelNotFound(x)) => assert_eq!(x, "m"),
        other => panic!("unexpected {:?}", other),
    }
    match route_request(&sc, true, &m, &Some("self-consistency".to_string())) {
        Ok((AlgorithmChoice::DefaultSelfConsistency, name)) => assert_eq!(name, "self-consistency"),
        other => panic!("unexpected {:?}", other),
    }
    match route_request(&sc, true, &m, &Some("beam-search".to_string())) {
        Ok((AlgorithmChoice::Configured, name)) => assert_eq!(name, "best-of-n"),
        other => panic!("unexpected {:?}", other),
    }
}

#[test]
fn cache_answers_name_the_requested_or_configured_algorithm() {
    assert_eq!(cached_algorithm_name(&Some("x".to_string()), &Some("y".to_string())), "x");
    assert_eq!(cached_algorithm_name(&None, &Some("y".to_string())), "y");
    assert_eq!(cached_algorithm_name(&None, &None), "");
}

#[test]
fn after_the_algorithm_answer_fall_back_or_refuse() {
    assert!(matches!(reply_after_run(None, true, true), ChatReply::Answer { store_in_cache: true }));
    assert!(matches!(reply_after_run(None, false, false), ChatReply::Answer { store_in_cache: false }));
    assert!(matches!(reply_after_run(Some("boom".to_string()), true, true), ChatReply::Passthrough));
    match reply_after_run(Some("boom".to_string()), false, true) {
        ChatReply::Refuse(e) => {
            assert_eq!(e.status_code(), 500);
            assert!(matches!(e, AppError::Algorithm(ref m) if m == "boom"));
        }
        other => panic!("unexpected {:?}", other),
    }
}

#[test]
fn upstream_usage_is_read_when_complete() {
    let n = |t: &str| JsonValue::Number(t.to_string());
    let usage = JsonValue::Object(vec![
        ("prompt_tokens".to_string(), n("10")),
        ("completion_tokens".to_string(), n("5")),
        ("total_tokens".to_string(), n("15")),
    ]);
    let answer = JsonValue::Object(vec![("usage".to_string(), usage)]);
    assert_eq!(
        response_usage(&answer),
        Some(ChatCompletionUsage { prompt_tokens: 10, completion_tokens: 5, total_tokens: 15 })
    );
    let partial = JsonValue::Object(vec![(
        "usage".to_string(),
        JsonValue::Object(vec![("prompt_tokens".to_string(), n("10"))]),
    )]);
    assert_eq!(response_usage(&partial), None);
    assert_eq!(response_usage(&JsonValue::Object(vec![])), None);
}
