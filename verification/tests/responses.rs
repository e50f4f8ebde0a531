use its_hub_rs::api::response_message;
use its_hub_rs::errors::LmClientError;
use its_hub_rs::json::JsonValue;
use its_hub_rs::responses::{extract_content_from_lm_response, parse_json_text};

fn st(s: &str) -> JsonValue {
    JsonValue::Str(s.to_string())
}

fn obj(ms: Vec<(&str, JsonValue)>) -> JsonValue {
    JsonValue::Object(ms.into_iter().map(|(k, v)| (k.to_string(), v)).collect())
}

#[test]
fn extract_content_string() {
    let msg = obj(vec![("role", st("assistant")), ("content", st("The answer is 42"))]);
    assert_eq!(extract_content_from_lm_response(&msg), "The answer is 42");
}

#[test]
fn extract_content_array() {
    let msg = obj(vec![
        ("role", st("assistant")),
        (
            "content",
            JsonValue::Array(vec![
                obj(vec![("type", st("text")), ("text", st("part1"))]),
                obj(vec![("type", st("image_url")), ("url", st("http://x"))]),
                obj(vec![("type", st("text")), ("text", st("part2"))]),
            ]),
        ),
    ]);
    assert_eq!(extract_content_from_lm_response(&msg), "part1 part2");
}

#[test]
fn extract_content_null() {
    let msg = obj(vec![("role", st("assistant")), ("content", JsonValue::Null)]);
    assert_eq!(extract_content_from_lm_response(&msg), "");
}

#[test]
fn extract_content_with_tool_calls() {
    let msg = obj(vec![
        ("role", st("assistant")),
        ("content", st("Looking up weather")),
        (
            "tool_calls",
            JsonValue::Array(vec![obj(vec![
                ("id", st("call_1")),
                ("type", st("function")),
                ("function", obj(vec![("name", st("get_weather")), ("arguments", st("{\"city\":\"London\"}"))])),
            ])]),
        ),
    ]);
    let result = extract_content_from_lm_response(&msg);
    assert!(result.starts_with("Looking up weather"));
    assert!(result.contains("[Tool call: get_weather"));
    assert!(result.contains("Tool args: {\"city\":\"London\"}]"));
}

#[test]
fn extract_content_tool_calls_only() {
    let msg = obj(vec![
        ("role", st("assistant")),
        ("content", JsonValue::Null),
        (
            "tool_calls",
            JsonValue::Array(vec![obj(vec![
                ("id", st("call_1")),
                ("type", st("function")),
                ("function", obj(vec![("name", st("calc")), ("arguments", obj(vec![("x", JsonValue::Number("1".to_string()))]))])),
            ])]),
        ),
    ]);
    let result = extract_content_from_lm_response(&msg);
    assert!(result.contains("[Tool call: calc"));
    assert_eq!(result, "[Tool call: calc Tool args: {\"x\":1}]");
}

#[test]
fn parse_json_text_reads_objects() {
    let v = parse_json_text("{\"b\": [1, true, null], \"a\": \"x\"}").unwrap();
    assert_eq!(
        v,
        obj(vec![
            ("a", st("x")),
            ("b", JsonValue::Array(vec![JsonValue::Number("1".to_string()), JsonValue::Bool(true), JsonValue::Null])),
        ])
    );
    assert!(parse_json_text("{not json").is_none());
}

#[test]
fn first_choice_message_is_read() {
    let response = obj(vec![(
        "choices",
        JsonValue::Array(vec![obj(vec![("index", JsonValue::Number("0".to_string())), ("message", obj(vec![("content", st("Hi!"))]))])]),
    )]);
    assert_eq!(response_message(&response).unwrap(), obj(vec![("content", st("Hi!"))]));
    let empty = obj(vec![("choices", JsonValue::Array(vec![]))]);
    assert_eq!(
        response_message(&empty).unwrap_err(),
        LmClientError::Connection("response missing choices[0].message".to_string())
    );
}
