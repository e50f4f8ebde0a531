use its_hub_rs::judge::{build_groupwise_prompt, build_judge_prompt, parse_ranking, score_candidates, score_source};
use its_hub_rs::messages::{ChatMessage, Content};

fn scores_of(text: &str, n: usize) -> Vec<f64> {
    match parse_ranking(text, n) {
        Some((places, total)) => places
            .iter()
            .map(|p| match p {
                Some(rank) => {
                    if total == 1 {
                        1.0
                    } else {
                        1.0 - (*rank as f64 / (total - 1) as f64)
                    }
                },
                None => 0.0,
            })
            .collect(),
        None => vec![0.0; n],
    }
}

#[test]
fn test_parse_ranking_basic() {
    let scores = scores_of("Good analysis.\n\nRanking: [2, 3, 1]", 3);
    assert_eq!(scores.len(), 3);
    assert!((scores[1] - 1.0).abs() < f64::EPSILON);
    assert!((scores[2] - 0.5).abs() < f64::EPSILON);
    assert!((scores[0] - 0.0).abs() < f64::EPSILON);
    assert_eq!(parse_ranking("Good analysis.\n\nRanking: [2, 3, 1]", 3), Some((vec![Some(2), Some(0), Some(1)], 3)));
}

#[test]
fn test_parse_ranking_two_items() {
    let scores = scores_of("Ranking: [1, 2]", 2);
    assert_eq!(scores.len(), 2);
    assert!((scores[0] - 1.0).abs() < f64::EPSILON);
    assert!((scores[1] - 0.0).abs() < f64::EPSILON);
}

#[test]
fn test_parse_ranking_no_match() {
    assert_eq!(parse_ranking("No ranking here", 3), None);
    assert_eq!(scores_of("No ranking here", 3), vec![0.0, 0.0, 0.0]);
}

#[test]
fn test_parse_ranking_single() {
    let scores = scores_of("Ranking: [1]", 1);
    assert_eq!(scores.len(), 1);
    assert!((scores[0] - 1.0).abs() < f64::EPSILON);
}

#[test]
fn ranking_longer_than_responses_is_ignored() {
    assert_eq!(parse_ranking("Ranking: [1, 2, 3]", 2), None);
    assert_eq!(parse_ranking("Ranking: [5, x, 1]", 2), Some((vec![Some(1), None], 2)));
}

fn user(text: &str) -> ChatMessage {
    ChatMessage { role: "user".to_string(), content: Some(Content::Text(text.to_string())), tool_calls: None, tool_call_id: None }
}

#[test]
fn test_groupwise_prompt_contains_all_responses() {
    let prompt_msgs = vec![user("What is 1+1?")];
    let responses = vec!["2".to_string(), "3".to_string(), "two".to_string()];
    let messages = build_groupwise_prompt("accuracy", &prompt_msgs, &responses);
    assert_eq!(messages.len(), 1);
    let content = messages[0].extract_text_content();
    assert!(content.contains("accuracy"));
    assert!(content.contains("Response 1"));
    assert!(content.contains("Response 2"));
    assert!(content.contains("Response 3"));
    assert!(content.contains("Ranking:"));
    assert!(content.contains("Compare all 3 responses"));
}

#[test]
fn impls_test_llm_judge_criterion_formatting() {
    let prompt_msgs = vec![user("Solve x+1=3")];
    let messages = build_judge_prompt("mathematical_correctness", &prompt_msgs, "x = 2");
    assert_eq!(messages.len(), 1);
    assert_eq!(messages[0].role, "user");
    let content = messages[0].extract_text_content();
    assert!(content.contains("mathematical_correctness"));
    assert!(content.contains("Solve x+1=3"));
    assert!(content.contains("x = 2"));
    assert!(content.contains("Score: X.X"));
}

#[test]
fn reward_models_test_llm_judge_criterion_formatting() {
    let prompt_msgs = vec![user("Solve x+1=3")];
    let messages = build_judge_prompt("mathematical_correctness", &prompt_msgs, "x = 2");
    let content = messages[0].extract_text_content();
    assert!(content.contains("mathematical_correctness"));
    assert!(content.contains("user: Solve x+1=3\n"));
    assert!(content.contains("between 0.0 and 1.0."));
}

#[test]
fn score_texts_found() {
    let c = score_candidates("Great work! Score: 0.85");
    assert_eq!(c.explicit, Some("0.85".to_string()));
    let c = score_candidates("The quality is 0.6 overall");
    assert_eq!(c.explicit, None);
    assert_eq!(c.numbers, vec!["0.6".to_string()]);
    let c = score_candidates("No score here");
    assert_eq!(c.explicit, None);
    assert!(c.numbers.is_empty());
}

// The judge's score as a number: an explicit score is clamped to the unit
// interval, a bare number is taken as it is, and no number scores zero.
fn parse_score(text: &str) -> f64 {
    match score_source(text) {
        Some((t, true)) => t.parse::<f64>().unwrap().clamp(0.0, 1.0),
        Some((t, false)) => t.parse::<f64>().unwrap(),
        None => 0.0,
    }
}

#[test]
fn impls_test_parse_score_explicit() {
    assert!((parse_score("Great work! Score: 0.85") - 0.85).abs() < f64::EPSILON);
    assert!((parse_score("score: 0.7") - 0.7).abs() < f64::EPSILON);
    assert!((parse_score("Score: 1.0") - 1.0).abs() < f64::EPSILON);
    assert!((parse_score("Score: 0") - 0.0).abs() < f64::EPSILON);
}

#[test]
fn impls_test_parse_score_clamp() {
    assert!((parse_score("Score: 1.5") - 1.0).abs() < f64::EPSILON);
}

#[test]
fn impls_test_parse_score_fallback() {
    assert!((parse_score("The quality is 0.6 overall") - 0.6).abs() < f64::EPSILON);
}

#[test]
fn impls_test_parse_score_no_match() {
    assert!((parse_score("No score here") - 0.0).abs() < f64::EPSILON);
}

#[test]
fn reward_models_test_parse_score_explicit() {
    assert!((parse_score("Great work! Score: 0.85") - 0.85).abs() < f64::EPSILON);
    assert!((parse_score("score: 0.7") - 0.7).abs() < f64::EPSILON);
    assert!((parse_score("Score: 1.0") - 1.0).abs() < f64::EPSILON);
    assert!((parse_score("Score: 0") - 0.0).abs() < f64::EPSILON);
}

#[test]
fn reward_models_test_parse_score_clamp() {
    assert!((parse_score("Score: 1.5") - 1.0).abs() < f64::EPSILON);
}

#[test]
fn reward_models_test_parse_score_fallback() {
    assert!((parse_score("The quality is 0.6 overall") - 0.6).abs() < f64::EPSILON);
}

#[test]
fn reward_models_test_parse_score_no_match() {
    assert!((parse_score("No score here") - 0.0).abs() < f64::EPSILON);
}

#[test]
fn score_source_names_where_the_score_comes_from() {
    assert_eq!(score_source("Score: 0.85"), Some(("0.85".to_string(), true)));
    assert_eq!(score_source("Score: 1.5"), Some(("1.5".to_string(), true)));
    assert_eq!(score_source("about 0.6, maybe 1"), Some(("0.6".to_string(), false)));
    assert_eq!(score_source("Score: \u{0663} but 1 overall"), Some(("1".to_string(), false)));
    assert_eq!(score_source("nothing"), None);
}
