use its_hub_rs::messages::{ChatMessage, Content};
use its_hub_rs::step_generation::{beam_count, rstrip_iff_entire, StepGeneration, StepMode, StepToken, TemperatureSwitch};

fn s(val: &str) -> String {
    val.to_string()
}

fn steps(vals: &[&str]) -> Vec<String> {
    vals.iter().map(|v| s(v)).collect()
}

#[test]
fn test_initialization_with_step_token() {
    let cases: Vec<(&str, u32, Option<&str>, f64, bool)> = vec![
        ("\n", 5, None, 0.8, false),
        ("\n", 3, Some("END"), 0.5, true),
        (">>", 10, Some("STOP"), 1.0, false),
    ];

    for (step_tok, max_steps, stop_tok, temp, include_stop) in cases {
        let sg = StepGeneration::with_step_token(
            StepToken::Single(s(step_tok)),
            max_steps,
            stop_tok.map(|t| s(t)),
            temp,
            include_stop,
            None,
        );

        match &sg.step_mode {
            StepMode::StepToken(StepToken::Single(tok)) => assert_eq!(tok, step_tok),
            _ => panic!("expected StepToken::Single"),
        }
        assert_eq!(sg.max_steps, max_steps);
        assert_eq!(sg.stop_token.as_deref(), stop_tok);
        assert_eq!(sg.temperature, temp);
        assert_eq!(sg.include_stop_str_in_output, include_stop);
    }
}

#[test]
fn test_initialization_with_tokens_per_step() {
    let sg1 = StepGeneration::with_tokens_per_step(50, 5, None, 0.8, false, None).unwrap();
    assert!(sg1.step_token().is_none());
    assert_eq!(sg1.tokens_per_step(), Some(50));

    let sg2 = StepGeneration::with_tokens_per_step(100, 5, None, 0.8, true, None).unwrap();
    assert!(sg2.step_token().is_none());
    assert_eq!(sg2.tokens_per_step(), Some(100));
}

#[test]
fn test_initialization_with_tokens_per_step_zero() {
    let err = StepGeneration::with_tokens_per_step(0, 5, None, 0.8, false, None);
    assert!(err.is_err());
    assert_eq!(err.unwrap_err(), "tokens_per_step must be a positive integer");
}

#[test]
fn test_temperature_switching() {
    let sg = StepGeneration::with_step_token(
        StepToken::Single(s("\n")),
        5,
        None,
        0.8,
        false,
        Some(TemperatureSwitch { temperature: 0.2, open_token: s("<think>"), close_token: s("</think>") }),
    );

    let no_messages: Vec<ChatMessage> = vec![];
    assert_eq!(sg.get_temperature(&no_messages), 0.8);

    let user_only = vec![ChatMessage {
        role: s("user"),
        content: Some(Content::Text(s("hello"))),
        tool_calls: None,
        tool_call_id: None,
    }];
    assert_eq!(sg.get_temperature(&user_only), 0.8);

    let with_open_token = vec![
        ChatMessage { role: s("user"), content: Some(Content::Text(s("hello"))), tool_calls: None, tool_call_id: None },
        ChatMessage {
            role: s("assistant"),
            content: Some(Content::Text(s("Let me think <think> about this"))),
            tool_calls: None,
            tool_call_id: None,
        },
    ];
    assert_eq!(sg.get_temperature(&with_open_token), 0.2);

    let with_both_tokens = vec![
        ChatMessage { role: s("user"), content: Some(Content::Text(s("hello"))), tool_calls: None, tool_call_id: None },
        ChatMessage {
            role: s("assistant"),
            content: Some(Content::Text(s("Let me think <think> about this </think> done"))),
            tool_calls: None,
            tool_call_id: None,
        },
    ];
    assert_eq!(sg.get_temperature(&with_both_tokens), 0.8);

    let sg_no_switch = StepGeneration::with_step_token(StepToken::Single(s("\n")), 5, None, 0.8, false, None);
    assert_eq!(sg_no_switch.get_temperature(&with_open_token), 0.8);
}

#[test]
fn test_post_process_basic() {
    let sg = StepGeneration::with_step_token(StepToken::Single(s("\n")), 5, None, 0.8, false, None);
    assert_eq!(sg.post_process(&steps(&["step1", "step2", "step3"]), false), "step1\nstep2\nstep3\n");
    assert_eq!(sg.post_process(&steps(&["step1", "step2", "step3"]), true), "step1\nstep2\nstep3");
}

#[test]
fn test_post_process_with_stop_token() {
    let sg = StepGeneration::with_step_token(StepToken::Single(s("\n")), 5, Some(s("END")), 0.8, true, None);
    assert_eq!(sg.post_process(&steps(&["step1", "step2", "step3END"]), true), "step1step2step3");
    assert_eq!(sg.post_process(&steps(&["step1", "step2", "step3END"]), false), "step1step2step3END");
    assert_eq!(sg.post_process(&steps(&["step1", "step2", "step3"]), true), "step1step2step3");
}

#[test]
fn test_post_process_strips_trailing_step_token() {
    let sg = StepGeneration::with_step_token(StepToken::Single(s("\n")), 5, None, 0.8, false, None);
    assert_eq!(sg.post_process(&steps(&["step1", "step2", "step3"]), false), "step1\nstep2\nstep3\n");
    assert_eq!(sg.post_process(&steps(&["step1", "step2", "step3"]), true), "step1\nstep2\nstep3");
}

#[test]
fn test_post_process_preserves_content_matching_step_token() {
    let sg = StepGeneration::with_step_token(StepToken::Single(s("\n")), 5, None, 0.8, true, None);
    assert_eq!(sg.post_process(&steps(&["step1", "step2", "step3"]), false), "step1step2step3");
}

#[test]
fn test_post_process_with_tokens_per_step() {
    let sg = StepGeneration::with_tokens_per_step(50, 5, None, 0.8, false, None).unwrap();
    assert_eq!(sg.post_process(&steps(&["step1", "step2", "step3"]), false), "step1step2step3");
    assert_eq!(sg.post_process(&steps(&["step1", "step2", "step3"]), true), "step1step2step3");

    let sg_include = StepGeneration::with_tokens_per_step(50, 5, None, 0.8, true, None).unwrap();
    assert_eq!(sg_include.post_process(&steps(&["step1", "step2", "step3"]), false), "step1step2step3");
    assert_eq!(sg_include.post_process(&steps(&["step1", "step2", "step3"]), true), "step1step2step3");
}

#[test]
fn test_rstrip_iff_entire() {
    assert_eq!(rstrip_iff_entire("hello world", "world"), "hello ");
    assert_eq!(rstrip_iff_entire("hello", "world"), "hello");
    assert_eq!(rstrip_iff_entire("world", "world"), "");
    assert_eq!(rstrip_iff_entire("", "world"), "");
    assert_eq!(rstrip_iff_entire("hello worldworld", "world"), "hello world");
    assert_eq!(rstrip_iff_entire("step3END", "END"), "step3");
    assert_eq!(rstrip_iff_entire("END", "END"), "");
}

#[test]
fn test_post_process_integration() {
    let sg = StepGeneration::with_step_token(StepToken::Single("\n".to_string()), 5, None, 0.8, false, None);
    let steps = vec!["step1".to_string(), "step2".to_string(), "step3".to_string()];
    let processed = sg.post_process(&steps, true);
    assert_eq!(processed, "step1\nstep2\nstep3");
    let processed_not_stopped = sg.post_process(&steps, false);
    assert_eq!(processed_not_stopped, "step1\nstep2\nstep3\n");
}

#[test]
fn test_build_stop_string_with_step_token() {
    let sg = StepGeneration::with_step_token(StepToken::Single("\n".to_string()), 5, None, 0.8, false, None);
    let stop = sg.build_stop_string();
    assert_eq!(stop, Some("\n".to_string()));
}

#[test]
fn test_build_stop_string_with_stop_token_only() {
    let sg = StepGeneration::with_tokens_per_step(50, 5, Some("END".to_string()), 0.8, false, None).unwrap();
    let stop = sg.build_stop_string();
    assert_eq!(stop, Some("END".to_string()));
}

#[test]
fn test_contains_stop_token() {
    let sg = StepGeneration::with_step_token(StepToken::Single("\n".to_string()), 5, Some("END".to_string()), 0.8, false, None);
    assert!(sg.contains_stop_token("some text END here"));
    assert!(!sg.contains_stop_token("no stop here"));
}

#[test]
fn step_request_messages_continue_the_answer() {
    let sg = StepGeneration::with_step_token(StepToken::Single("\n".to_string()), 5, None, 0.8, false, None);
    let first = sg.step_request_messages("Solve", &vec![]);
    assert_eq!(first.len(), 1);
    assert_eq!(first[0].role, "user");
    let next = sg.step_request_messages("Solve", &steps(&["a", "b"]));
    assert_eq!(next.len(), 2);
    assert_eq!(next[1].role, "assistant");
    assert_eq!(next[1].extract_text_content(), "a\nb\n");
}

#[test]
fn step_is_final_when_empty_or_stopped() {
    let sg = StepGeneration::with_step_token(StepToken::Single("\n".to_string()), 2, Some("END".to_string()), 0.8, false, None);
    let none: Vec<String> = Vec::new();
    let one = vec!["a".to_string()];
    let two = vec!["a".to_string(), "b".to_string()];
    assert!(sg.step_is_final("", &none));
    assert!(sg.step_is_final("x END", &none));
    assert!(!sg.step_is_final("x", &none));
    assert!(!sg.step_is_final("x", &one));
    assert!(sg.step_is_final("x", &two));
    assert!(sg.path_stops(2, false));
    assert!(!sg.path_stops(1, false));
}

#[test]
fn multiple_step_tokens_stop_on_first() {
    let sg = StepGeneration::with_step_token(StepToken::Multiple(steps(&["A", "B"])), 5, None, 0.8, true, None);
    assert_eq!(sg.build_stop_string(), Some("A".to_string()));
    assert_eq!(sg.post_process(&steps(&["xA", "yB"]), false), "xAyB");
}

#[test]
fn beam_budget_checks() {
    assert_eq!(beam_count(6, 2), Ok(3));
    assert_eq!(beam_count(1, 2), Err("budget must be greater than or equal to beam_width".to_string()));
    assert_eq!(beam_count(5, 2), Err("budget must be divisible by beam_width".to_string()));
}

#[test]
fn stripping_undoes_appending_the_stop_token() {
    let step = "The answer is 4";
    let with_stop = format!("{}{}", step, "<end>");
    assert_eq!(rstrip_iff_entire(&with_stop, "<end>"), step);
    assert_eq!(rstrip_iff_entire(step, "<end>"), step);
}
