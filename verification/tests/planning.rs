use its_hub_rs::json::JsonValue;
use its_hub_rs::messages::ChatMessage;
use its_hub_rs::planning::{
    approach_budgets, create_approach_prompt, create_planning_prompt, extract_approaches, result_score_numbers,
    MetropolisHastings, DEFAULT_APPROACH_1,
};

#[test]
fn test_planning_prompt_formatting() {
    let prompt = create_planning_prompt("Solve x + 1 = 3");
    assert!(prompt.contains("Problem: Solve x + 1 = 3"));
    assert!(prompt.contains("APPROACH 1:"));
    assert!(prompt.contains("APPROACH 2:"));
    assert!(prompt.contains("APPROACH 3:"));
}

#[test]
fn test_approach_prompt_formatting() {
    let prompt = create_approach_prompt("Solve x + 1 = 3", "Direct algebra");
    assert!(prompt.contains("Problem: Solve x + 1 = 3"));
    assert!(prompt.contains("Approach to use: Direct algebra"));
    assert!(prompt.contains("Direct algebra"));
}

#[test]
fn test_extract_approaches_structured() {
    let plan = "APPROACH 1: Direct algebraic approach\nAPPROACH 2: Substitution method\nAPPROACH 3: Geometric interpretation";
    let approaches = extract_approaches(plan);
    assert_eq!(approaches.len(), 3);
    assert_eq!(approaches[0], "Direct algebraic approach");
    assert_eq!(approaches[1], "Substitution method");
    assert_eq!(approaches[2], "Geometric interpretation");
}

#[test]
fn test_extract_approaches_numbered_fallback() {
    let plan = "1. Direct method\n2. Alternative method\n3. Graphical method";
    let approaches = extract_approaches(plan);
    assert_eq!(approaches.len(), 3);
    assert_eq!(approaches[0], "Direct method");
    assert_eq!(approaches[1], "Alternative method");
    assert_eq!(approaches[2], "Graphical method");
}

#[test]
fn test_extract_approaches_fallback_defaults() {
    let plan = "This is a general plan without structured approaches.";
    let approaches = extract_approaches(plan);
    assert_eq!(approaches.len(), 3);
    assert_eq!(approaches[0], DEFAULT_APPROACH_1);
}

#[test]
fn test_extract_approaches_single_approach_uses_defaults() {
    let plan = "APPROACH 1: Only one approach here";
    let approaches = extract_approaches(plan);
    assert_eq!(approaches.len(), 3);
    assert_eq!(approaches[0], DEFAULT_APPROACH_1);
}

#[test]
fn test_extract_approaches_truncates_to_three() {
    let plan = "APPROACH 1: First\nAPPROACH 2: Second\nAPPROACH 3: Third\nAPPROACH 4: Fourth\nAPPROACH 5: Fifth";
    let approaches = extract_approaches(plan);
    assert_eq!(approaches.len(), 3);
}

#[test]
fn test_extract_approaches_case_insensitive() {
    let plan = "approach 1: First method\napproach 2: Second method\napproach 3: Third method";
    let approaches = extract_approaches(plan);
    assert_eq!(approaches.len(), 3);
    assert_eq!(approaches[0], "First method");
}

#[test]
fn test_metropolis_hastings_default() {
    let _mh = MetropolisHastings::default();
}

#[test]
fn metropolis_hastings_refuses_inference() {
    let mh = MetropolisHastings::new();
    let messages = vec![ChatMessage::user("What is 2 + 2?".to_string())];
    assert_eq!(mh.infer(&messages, 4, false, None, None, None).unwrap_err(), "MetropolisHastings not yet implemented");
}

#[test]
fn budgets_split_evenly() {
    assert_eq!(approach_budgets(8, 3), vec![3, 2, 2]);
    assert_eq!(approach_budgets(10, 3), vec![3, 3, 3]);
    assert_eq!(approach_budgets(7, 3).iter().sum::<u32>(), 6);
}

#[test]
fn budgets_at_least_one() {
    assert_eq!(approach_budgets(1, 3), vec![1, 1, 1]);
    assert_eq!(approach_budgets(0, 2), vec![1, 1]);
    assert_eq!(approach_budgets(3, 3), vec![2, 1, 1]);
    assert!(approach_budgets(5, 0).is_empty());
}

fn num(t: &str) -> JsonValue {
    JsonValue::Number(t.to_string())
}

fn obj(ms: Vec<(&str, JsonValue)>) -> JsonValue {
    JsonValue::Object(ms.into_iter().map(|(k, v)| (k.to_string(), v)).collect())
}

#[test]
fn result_score_numbers_follow_the_field_priority() {
    let scores = obj(vec![("scores", JsonValue::Array(vec![num("0.3"), num("0.9"), num("0.5")]))]);
    assert_eq!(result_score_numbers(&scores), vec!["0.3", "0.9", "0.5"]);

    let best = obj(vec![("best_score", num("0.85"))]);
    assert_eq!(result_score_numbers(&best), vec!["0.85"]);

    assert!(result_score_numbers(&obj(vec![])).is_empty());

    let flat = obj(vec![("log_weights_lst", JsonValue::Array(vec![num("0.1"), num("0.5"), num("0.3")]))]);
    assert_eq!(result_score_numbers(&flat), vec!["0.1", "0.5", "0.3"]);

    let nested = obj(vec![(
        "log_weights_lst",
        JsonValue::Array(vec![
            JsonValue::Array(vec![num("0.1"), num("0.2")]),
            JsonValue::Array(vec![num("0.5"), num("0.3")]),
        ]),
    )]);
    assert_eq!(result_score_numbers(&nested), vec!["0.1", "0.2", "0.5", "0.3"]);

    let priority = obj(vec![("best_score", num("0.7")), ("scores", JsonValue::Array(vec![num("0.9")]))]);
    assert_eq!(result_score_numbers(&priority), vec!["0.7"]);

    let skipped = obj(vec![
        ("score", JsonValue::Str("high".to_string())),
        ("weight", JsonValue::Array(vec![JsonValue::Null, num("2")])),
        ("scores", JsonValue::Array(vec![num("0.9")])),
    ]);
    assert_eq!(result_score_numbers(&skipped), vec!["2"]);
}
