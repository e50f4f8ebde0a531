use its_hub_rs::json::JsonValue;
use its_hub_rs::messages::{ChatMessage, ChatMessages, Content, ContentPart, ToolCall, ToolFunction};

fn user_msg(text: &str) -> ChatMessage {
    ChatMessage {
        role: "user".to_string(),
        content: Some(Content::Text(text.to_string())),
        tool_calls: None,
        tool_call_id: None,
    }
}

fn assistant_msg(text: &str) -> ChatMessage {
    ChatMessage {
        role: "assistant".to_string(),
        content: Some(Content::Text(text.to_string())),
        tool_calls: None,
        tool_call_id: None,
    }
}

#[test]
fn test_from_string() {
    let cm = ChatMessages::from_string("What is 2+2?".to_string());
    assert!(cm.is_string());
}

#[test]
fn test_from_messages() {
    let msgs = vec![user_msg("hello"), assistant_msg("hi")];
    let cm = ChatMessages::from_messages(msgs);
    assert!(!cm.is_string());
}

#[test]
fn test_to_prompt_from_string() {
    let cm = ChatMessages::from_string("What is 2+2?".to_string());
    assert_eq!(cm.to_prompt(), "What is 2+2?");
}

#[test]
fn test_to_prompt_from_messages() {
    let msgs = vec![user_msg("hello"), assistant_msg("hi there")];
    let cm = ChatMessages::from_messages(msgs);
    assert_eq!(cm.to_prompt(), "user: hello\nassistant: hi there");
}

#[test]
fn test_to_prompt_tool_message() {
    let msgs = vec![ChatMessage {
        role: "tool".to_string(),
        content: Some(Content::Text("result data".to_string())),
        tool_calls: None,
        tool_call_id: Some("call_123".to_string()),
    }];
    let cm = ChatMessages::from_messages(msgs);
    assert_eq!(cm.to_prompt(), "tool[call_123]: result data");
}

#[test]
fn test_to_prompt_assistant_with_tool_calls() {
    let msgs = vec![ChatMessage {
        role: "assistant".to_string(),
        content: Some(Content::Text("Looking up weather".to_string())),
        tool_calls: Some(vec![ToolCall {
            id: "call_1".to_string(),
            call_type: "function".to_string(),
            function: Some(ToolFunction {
                name: "get_weather".to_string(),
                arguments: JsonValue::Object(vec![]),
            }),
        }]),
        tool_call_id: None,
    }];
    let cm = ChatMessages::from_messages(msgs);
    assert_eq!(cm.to_prompt(), "assistant: Looking up weather [calls: get_weather()]");
}

#[test]
fn test_to_prompt_assistant_tool_calls_no_content() {
    let msgs = vec![ChatMessage {
        role: "assistant".to_string(),
        content: None,
        tool_calls: Some(vec![ToolCall {
            id: "call_1".to_string(),
            call_type: "function".to_string(),
            function: Some(ToolFunction {
                name: "calc".to_string(),
                arguments: JsonValue::Object(vec![]),
            }),
        }]),
        tool_call_id: None,
    }];
    let cm = ChatMessages::from_messages(msgs);
    assert_eq!(cm.to_prompt(), "assistant: [calls: calc()]");
}

#[test]
fn test_to_chat_messages_from_string() {
    let cm = ChatMessages::from_string("What is 2+2?".to_string());
    let msgs = cm.to_chat_messages();
    assert_eq!(msgs.len(), 1);
    assert_eq!(msgs[0].role, "user");
    assert_eq!(msgs[0].extract_text_content(), "What is 2+2?");
}

#[test]
fn test_to_chat_messages_from_messages() {
    let original = vec![user_msg("hello"), assistant_msg("hi")];
    let cm = ChatMessages::from_messages(original);
    let result = cm.to_chat_messages();
    assert_eq!(result.len(), 2);
    assert_eq!(result[0].role, "user");
    assert_eq!(result[1].role, "assistant");
}

#[test]
fn test_to_batch() {
    let cm = ChatMessages::from_string("test prompt".to_string());
    let batch = cm.to_batch(3);
    assert_eq!(batch.len(), 3);
    for item in &batch {
        assert_eq!(item.len(), 1);
        assert_eq!(item[0].role, "user");
        assert_eq!(item[0].extract_text_content(), "test prompt");
    }
}

#[test]
fn test_to_batch_from_messages() {
    let msgs = vec![user_msg("hello"), assistant_msg("hi")];
    let cm = ChatMessages::from_messages(msgs);
    let batch = cm.to_batch(2);
    assert_eq!(batch.len(), 2);
    for item in &batch {
        assert_eq!(item.len(), 2);
    }
}

#[test]
fn test_is_string() {
    let text = ChatMessages::from_string("hello".to_string());
    assert!(text.is_string());

    let msgs = ChatMessages::from_messages(vec![user_msg("hello")]);
    assert!(!msgs.is_string());
}

#[test]
fn extract_text_content_none() {
    let msg = ChatMessage { role: "user".to_string(), content: None, tool_calls: None, tool_call_id: None };
    assert_eq!(msg.extract_text_content(), "");
}

#[test]
fn extract_text_content_string() {
    let msg = user_msg("hello world");
    assert_eq!(msg.extract_text_content(), "hello world");
}

#[test]
fn extract_text_content_parts() {
    let msg = ChatMessage {
        role: "user".to_string(),
        content: Some(Content::Parts(vec![
            ContentPart { part_type: "text".to_string(), text: Some("hello".to_string()) },
            ContentPart { part_type: "image_url".to_string(), text: None },
            ContentPart { part_type: "text".to_string(), text: Some("world".to_string()) },
        ])),
        tool_calls: None,
        tool_call_id: None,
    };
    assert_eq!(msg.extract_text_content(), "hello world");
}

#[test]
fn test_multimodal_join_with_space() {
    let msg = ChatMessage {
        role: "user".to_string(),
        content: Some(Content::Parts(vec![
            ContentPart { part_type: "text".to_string(), text: Some("Describe this image:".to_string()) },
            ContentPart { part_type: "image_url".to_string(), text: None },
            ContentPart { part_type: "text".to_string(), text: Some("in detail.".to_string()) },
        ])),
        tool_calls: None,
        tool_call_id: None,
    };
    let extracted = msg.extract_text_content();
    assert_eq!(extracted, "Describe this image: in detail.");
    assert!(extracted.contains(' '), "text parts must be space-separated");
}

#[test]
fn messages_to_prompt_lines() {
    let msgs = vec![user_msg("2+2?"), assistant_msg("4")];
    assert_eq!(its_hub_rs::messages::messages_to_prompt(&msgs), "user: 2+2?\nassistant: 4");
    assert_eq!(its_hub_rs::messages::problem_text(&msgs), "2+2?\n4");
}

#[test]
fn message_json_skips_absent_fields() {
    let msg = user_msg("hi");
    let v = its_hub_rs::messages::message_json(&msg);
    assert_eq!(
        v,
        JsonValue::Object(vec![
            ("role".to_string(), JsonValue::Str("user".to_string())),
            ("content".to_string(), JsonValue::Str("hi".to_string())),
        ])
    );
}
