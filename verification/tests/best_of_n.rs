use its_hub_rs::best_of_n::{collect_responses, dedupe_with_inverse, failure_content, gather_by_index};
use its_hub_rs::errors::LmClientError;
use its_hub_rs::json::JsonValue;

fn strings(items: &[&str]) -> Vec<String> {
    items.iter().map(|s| s.to_string()).collect()
}

#[test]
fn dedupe_basic() {
    let items = strings(&["a", "b", "a", "c", "b"]);
    let (uniques, inverse) = dedupe_with_inverse(&items);
    assert_eq!(uniques, vec!["a", "b", "c"]);
    assert_eq!(inverse, vec![0, 1, 0, 2, 1]);
}

#[test]
fn dedupe_single_unique() {
    let items = strings(&["a", "a", "a"]);
    let (uniques, inverse) = dedupe_with_inverse(&items);
    assert_eq!(uniques, vec!["a"]);
    assert_eq!(inverse, vec![0, 0, 0]);
}

#[test]
fn dedupe_all_unique() {
    let items = strings(&["a", "b", "c"]);
    let (uniques, inverse) = dedupe_with_inverse(&items);
    assert_eq!(uniques, vec!["a", "b", "c"]);
    assert_eq!(inverse, vec![0, 1, 2]);
}

#[test]
fn dedupe_empty() {
    let items: Vec<String> = vec![];
    let (uniques, inverse) = dedupe_with_inverse(&items);
    assert!(uniques.is_empty());
    assert!(inverse.is_empty());
}

#[test]
fn dedupe_preserves_first_occurrence_order() {
    let items = strings(&["c", "b", "a", "b", "c"]);
    let (uniques, inverse) = dedupe_with_inverse(&items);
    assert_eq!(uniques, vec!["c", "b", "a"]);
    assert_eq!(inverse, vec![0, 1, 2, 1, 0]);
}

#[test]
fn score_mapping_through_inverse_index() {
    let contents = strings(&["a", "b", "a", "c", "b"]);
    let (_, inverse_idx) = dedupe_with_inverse(&contents);
    let unique_scores = vec![0.3, 0.9, 0.5];
    let scores: Vec<f64> = gather_by_index(&unique_scores, &inverse_idx);
    assert_eq!(scores, vec![0.3, 0.9, 0.3, 0.5, 0.9]);
}

#[test]
fn select_max_first_occurrence() {
    let scores = vec![0.3, 0.9, 0.5, 0.9];
    let max_score = scores.iter().copied().fold(f64::NEG_INFINITY, f64::max);
    let selected = scores.iter().position(|&s| s == max_score).unwrap();
    assert_eq!(selected, 1);
}

#[test]
fn select_max_tie_takes_first() {
    let scores = vec![0.5, 0.8, 0.8, 0.3];
    let max_score = scores.iter().copied().fold(f64::NEG_INFINITY, f64::max);
    let selected = scores.iter().position(|&s| s == max_score).unwrap();
    assert_eq!(selected, 1);
}

#[test]
fn equal_responses_get_equal_scores() {
    let contents = strings(&["x", "y", "x", "x"]);
    let (uniques, inverse) = dedupe_with_inverse(&contents);
    assert_eq!(uniques.len(), 2);
    let scores: Vec<u32> = gather_by_index(&vec![7, 3], &inverse);
    assert_eq!(scores, vec![7, 3, 7, 7]);
    assert_eq!(scores[0], scores[2]);
}

#[test]
fn failure_content_default_and_replacement() {
    assert_eq!(failure_content(&None, "boom"), "Error during generation: boom");
    assert_eq!(failure_content(&Some("oops".to_string()), "boom"), "oops: boom");
}

fn content_of(v: &JsonValue) -> Option<String> {
    match v {
        JsonValue::Object(ms) => ms.iter().find(|(k, _)| k == "content").and_then(|(_, x)| match x {
            JsonValue::Str(s) => Some(s.clone()),
            _ => None,
        }),
        _ => None,
    }
}

#[test]
fn collect_responses_substitutes_failures() {
    let ok = JsonValue::Object(vec![("content".to_string(), JsonValue::Str("fine".to_string()))]);
    let results = vec![Ok(ok), Err(LmClientError::Connection("down".to_string()))];
    let collected = collect_responses(&results, &None).unwrap();
    assert_eq!(collected.len(), 2);
    assert_eq!(content_of(&collected[0]).unwrap(), "fine");
    assert_eq!(
        content_of(&collected[1]).unwrap(),
        "Error during generation: connection error: down"
    );
}

#[test]
fn collect_responses_all_failed() {
    let results: Vec<Result<JsonValue, LmClientError>> =
        vec![Err(LmClientError::Connection("a".to_string())), Err(LmClientError::Connection("b".to_string()))];
    let err = collect_responses(&results, &Some("x".to_string())).unwrap_err();
    assert_eq!(err, "all fan-out requests failed");
}
