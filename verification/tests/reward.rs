use its_hub_rs::json::{get_member, JsonValue};
use its_hub_rs::messages::{ChatMessage, ChatMessages};
use its_hub_rs::reward::{orm_request_body, prm_request_body};

#[test]
fn orm_body_carries_the_conversation_and_the_responses() {
    let prompt = vec![ChatMessage::user("What is 2+2?".to_string())];
    let body = orm_request_body(&prompt, &vec!["4".to_string(), "5".to_string()]);
    match get_member(&body, "prompt") {
        Some(JsonValue::Array(ms)) => {
            assert_eq!(ms.len(), 1);
            assert_eq!(get_member(&ms[0], "role"), Some(&JsonValue::Str("user".to_string())));
            assert_eq!(get_member(&ms[0], "content"), Some(&JsonValue::Str("What is 2+2?".to_string())));
        }
        other => panic!("unexpected prompt {:?}", other),
    }
    assert_eq!(
        get_member(&body, "responses"),
        Some(&JsonValue::Array(vec![JsonValue::Str("4".to_string()), JsonValue::Str("5".to_string())]))
    );
}

#[test]
fn prm_body_joins_the_steps_with_blank_lines() {
    let prompt = ChatMessages::from_messages(vec![ChatMessage::user("Solve it".to_string())]);
    let body = prm_request_body(&prompt, &vec!["step one".to_string(), "step two".to_string()]);
    assert_eq!(get_member(&body, "prompt"), Some(&JsonValue::Str("user: Solve it".to_string())));
    assert_eq!(get_member(&body, "response_prefix"), Some(&JsonValue::Str("step one\n\nstep two".to_string())));
}
