use its_hub_rs::api::AlgorithmOutput;
use its_hub_rs::canonical::canonical_json;
use its_hub_rs::json::JsonValue;
use its_hub_rs::responses::{filter_args, has_tool_calls};
use its_hub_rs::self_consistency::{create_regex_projection_function, vote_output, Projection, SelectionError, SelfConsistency};
use its_hub_rs::voting::{
    select_hierarchical_most_common_or_random, select_most_common_or_random, ProjectedValue, ToolVoteStrategy,
};

fn st(s: &str) -> JsonValue {
    JsonValue::Str(s.to_string())
}

fn num(n: i64) -> JsonValue {
    JsonValue::Number(n.to_string())
}

fn obj(ms: Vec<(&str, JsonValue)>) -> JsonValue {
    JsonValue::Object(ms.into_iter().map(|(k, v)| (k.to_string(), v)).collect())
}

fn get<'a>(v: &'a JsonValue, key: &str) -> &'a JsonValue {
    match v {
        JsonValue::Object(ms) => &ms.iter().find(|(k, _)| k == key).unwrap().1,
        _ => panic!("not an object"),
    }
}

fn content_response(content: &str) -> JsonValue {
    obj(vec![("role", st("assistant")), ("content", st(content))])
}

fn tool_call_response(name: &str, args: JsonValue) -> JsonValue {
    obj(vec![
        ("role", st("assistant")),
        ("content", JsonValue::Null),
        (
            "tool_calls",
            JsonValue::Array(vec![obj(vec![
                ("id", st("call_1")),
                ("type", st("function")),
                ("function", obj(vec![("name", st(name)), ("arguments", args)])),
            ])]),
        ),
    ])
}

fn tool_name(v: &JsonValue) -> String {
    let calls = get(v, "tool_calls");
    match calls {
        JsonValue::Array(items) => match get(get(&items[0], "function"), "name") {
            JsonValue::Str(s) => s.clone(),
            _ => panic!(),
        },
        _ => panic!(),
    }
}

fn selected(sc: &SelfConsistency, responses: &Vec<JsonValue>) -> JsonValue {
    let sel = sc.process_responses(responses).unwrap();
    match vote_output(responses, &sel, true) {
        AlgorithmOutput::ResponseOnly(s) => s,
        _ => panic!("expected ResponseOnly"),
    }
}

fn single(s: &str) -> ProjectedValue {
    ProjectedValue::Single(Some(s.to_string()))
}

#[test]
fn flat_vote_clear_majority() {
    let values = vec![single("42"), single("42"), single("42"), single("7"), single("7")];
    let (counts, sel) = select_most_common_or_random(&values);
    assert_eq!(counts.get(&single("42")), 3);
    assert_eq!(counts.get(&single("7")), 2);
    assert_eq!(values[sel], single("42"));
}

#[test]
fn flat_vote_tie_randomness() {
    let values = vec![single("a"), single("a"), single("b"), single("b")];
    let mut saw_a = false;
    let mut saw_b = false;
    for _ in 0..100 {
        let (_, sel) = select_most_common_or_random(&values);
        match &values[sel] {
            ProjectedValue::Single(Some(s)) if s == "a" => saw_a = true,
            ProjectedValue::Single(Some(s)) if s == "b" => saw_b = true,
            _ => panic!("unexpected selection"),
        }
        if saw_a && saw_b {
            break;
        }
    }
    assert!(saw_a && saw_b, "tiebreak should produce both values");
}

#[test]
fn regex_projection_boxed_answer() {
    let sc = SelfConsistency::new(Some(vec![r"\\boxed\{([^}]+)\}".into()]), None).unwrap();
    let response = content_response(r"The answer is \boxed{42}");
    assert_eq!(sc.project_content(&response), ProjectedValue::Tuple(vec![Some("42".into())]));
}

#[test]
fn regex_projection_no_match() {
    let sc = SelfConsistency::new(Some(vec![r"\\boxed\{([^}]+)\}".into()]), None).unwrap();
    let response = content_response("No boxed answer here");
    assert_eq!(sc.project_content(&response), ProjectedValue::Tuple(vec![None]));
}

#[test]
fn regex_projection_multiple_patterns() {
    let sc = SelfConsistency::new(Some(vec![r"Method:\s*(\w+)".into(), r"\\boxed\{([^}]+)\}".into()]), None).unwrap();
    let response = content_response(r"Method: algebra\nSo the answer is \boxed{42}");
    assert_eq!(
        sc.project_content(&response),
        ProjectedValue::Tuple(vec![Some("algebra".into()), Some("42".into())])
    );
}

#[test]
fn regex_projection_no_capture_group() {
    let sc = SelfConsistency::new(Some(vec![r"\d+".into()]), None).unwrap();
    let response = content_response("The answer is 42 or maybe 7");
    assert_eq!(sc.project_content(&response), ProjectedValue::Tuple(vec![Some("42".into())]));
}

#[test]
fn default_projection_strips_whitespace() {
    let sc = SelfConsistency::new(None, None).unwrap();
    let response = content_response("  hello world  ");
    assert_eq!(sc.project_content(&response), ProjectedValue::Single(Some("hello world".into())));
}

#[test]
fn tool_name_voting() {
    let sc = SelfConsistency::new(None, Some(ToolVoteStrategy::Name)).unwrap();
    let responses = vec![
        tool_call_response("get_weather", obj(vec![("city", st("London"))])),
        tool_call_response("get_weather", obj(vec![("city", st("Paris"))])),
        tool_call_response("get_weather", obj(vec![("city", st("Berlin"))])),
        tool_call_response("get_time", obj(vec![("timezone", st("UTC"))])),
        tool_call_response("get_time", obj(vec![("timezone", st("EST"))])),
    ];
    let sel = selected(&sc, &responses);
    assert_eq!(tool_name(&sel), "get_weather");
}

#[test]
fn tool_args_voting() {
    let sc = SelfConsistency::new(None, Some(ToolVoteStrategy::Args { exclude: vec![] })).unwrap();
    let responses = vec![
        tool_call_response("fn", obj(vec![("x", num(1)), ("y", num(2))])),
        tool_call_response("fn", obj(vec![("x", num(1)), ("y", num(2))])),
        tool_call_response("fn", obj(vec![("x", num(1)), ("y", num(2))])),
        tool_call_response("fn", obj(vec![("x", num(3)), ("y", num(4))])),
        tool_call_response("fn", obj(vec![("x", num(5)), ("y", num(6))])),
    ];
    let sel = selected(&sc, &responses);
    let calls = match get(&sel, "tool_calls") {
        JsonValue::Array(items) => items,
        _ => panic!(),
    };
    let args = get(get(&calls[0], "function"), "arguments");
    assert_eq!(get(args, "x"), &num(1));
    assert_eq!(get(args, "y"), &num(2));
}

#[test]
fn tool_args_with_exclude() {
    let sc = SelfConsistency::new(None, Some(ToolVoteStrategy::Args { exclude: vec!["timestamp".into()] })).unwrap();
    let r1 = tool_call_response("fn", obj(vec![("city", st("London")), ("timestamp", st("t1"))]));
    let r2 = tool_call_response("fn", obj(vec![("city", st("London")), ("timestamp", st("t2"))]));
    let r3 = tool_call_response("fn", obj(vec![("city", st("Paris")), ("timestamp", st("t3"))]));
    let pv1 = sc.extract_tool_call_features(&r1);
    let pv2 = sc.extract_tool_call_features(&r2);
    let pv3 = sc.extract_tool_call_features(&r3);
    assert_eq!(pv1, pv2, "excluded timestamp should make these equal");
    assert_ne!(pv1, pv3, "different city should differ");
    match &pv1 {
        ProjectedValue::Tuple(pairs) => {
            assert_eq!(pairs.len(), 1);
            assert_eq!(pairs[0], Some("city=\"London\"".to_string()));
        },
        _ => panic!("tool_args should return Tuple"),
    }
}

#[test]
fn tool_hierarchical_voting() {
    let sc = SelfConsistency::new(None, Some(ToolVoteStrategy::Hierarchical { exclude: vec![] })).unwrap();
    let responses = vec![
        tool_call_response("get_weather", obj(vec![("city", st("London"))])),
        tool_call_response("get_weather", obj(vec![("city", st("London"))])),
        tool_call_response("get_weather", obj(vec![("city", st("Paris"))])),
        tool_call_response("get_time", obj(vec![("tz", st("UTC"))])),
        tool_call_response("get_time", obj(vec![("tz", st("EST"))])),
    ];
    let sel = selected(&sc, &responses);
    assert_eq!(tool_name(&sel), "get_weather");
    let calls = match get(&sel, "tool_calls") {
        JsonValue::Array(items) => items,
        _ => panic!(),
    };
    assert_eq!(get(get(get(&calls[0], "function"), "arguments"), "city"), &st("London"));
}

#[test]
fn eligible_responses_majority_tool_calls() {
    let sc = SelfConsistency::new(None, Some(ToolVoteStrategy::Name)).unwrap();
    let responses = vec![
        tool_call_response("get_weather", obj(vec![])),
        tool_call_response("get_weather", obj(vec![])),
        tool_call_response("get_time", obj(vec![])),
        content_response("The weather is sunny"),
        content_response("It's raining"),
    ];
    let sel = selected(&sc, &responses);
    assert!(has_tool_calls(&sel), "should select from tool-call responses");
    assert_eq!(tool_name(&sel), "get_weather");
}

#[test]
fn eligible_responses_minority_tool_calls_uses_content() {
    let sc = SelfConsistency::new(None, Some(ToolVoteStrategy::Name)).unwrap();
    let responses = vec![
        tool_call_response("get_weather", obj(vec![])),
        tool_call_response("get_time", obj(vec![])),
        content_response("42"),
        content_response("42"),
        content_response("7"),
    ];
    let sel = selected(&sc, &responses);
    assert!(!has_tool_calls(&sel), "should select from content responses");
    assert_eq!(get(&sel, "content"), &st("42"));
}

#[test]
fn no_eligible_responses_error() {
    let sc = SelfConsistency::new(None, None).unwrap();
    let responses = vec![
        tool_call_response("fn1", obj(vec![])),
        tool_call_response("fn2", obj(vec![])),
        tool_call_response("fn3", obj(vec![])),
    ];
    let result = sc.process_responses(&responses);
    assert!(result.is_err());
    let err = result.err().unwrap();
    assert_eq!(err, SelectionError::NoEligible { total: 3, tool_calls: 3 });
    assert!(err.message().contains("No eligible responses"));
}

#[test]
fn empty_responses_error() {
    let sc = SelfConsistency::new(None, None).unwrap();
    let result = sc.process_responses(&vec![]);
    assert!(result.is_err());
}

#[test]
fn all_identical_responses() {
    let sc = SelfConsistency::new(None, None).unwrap();
    let responses = vec![content_response("same answer"), content_response("same answer"), content_response("same answer")];
    let sel = selected(&sc, &responses);
    assert_eq!(get(&sel, "content"), &st("same answer"));
}

#[test]
fn return_full_includes_metadata() {
    let sc = SelfConsistency::new(None, None).unwrap();
    let responses = vec![content_response("42"), content_response("42"), content_response("7")];
    let sel = sc.process_responses(&responses).unwrap();
    match vote_output(&responses, &sel, false) {
        AlgorithmOutput::Full { selected, metadata } => {
            assert_eq!(get(&selected, "content"), &st("42"));
            assert_eq!(get(&metadata, "algorithm"), &st("self-consistency"));
            get(&metadata, "all_responses");
            get(&metadata, "response_counts");
            get(&metadata, "selected_index");
        },
        _ => panic!("expected Full"),
    }
}

#[test]
fn has_tool_calls_detection() {
    assert!(has_tool_calls(&obj(vec![("tool_calls", JsonValue::Array(vec![obj(vec![("id", st("1"))])]))])));
    assert!(!has_tool_calls(&obj(vec![("tool_calls", JsonValue::Array(vec![]))])));
    assert!(!has_tool_calls(&obj(vec![("tool_calls", JsonValue::Null)])));
    assert!(!has_tool_calls(&obj(vec![("content", st("hi"))])));
    assert!(!has_tool_calls(&obj(vec![])));
}

#[test]
fn canonical_json_sorts_keys() {
    let v1 = obj(vec![("b", num(2)), ("a", num(1))]);
    let v2 = obj(vec![("a", num(1)), ("b", num(2))]);
    assert_eq!(canonical_json(&v1), canonical_json(&v2));
}

#[test]
fn canonical_json_nested() {
    let v = obj(vec![("a", num(1)), ("b", JsonValue::Array(vec![num(2), num(3)])), ("c", obj(vec![("d", num(4))]))]);
    assert_eq!(canonical_json(&v), r#"{"a":1,"b":[2,3],"c":{"d":4}}"#);
}

#[test]
fn tool_call_with_string_arguments() {
    let sc = SelfConsistency::new(None, Some(ToolVoteStrategy::Args { exclude: vec![] })).unwrap();
    let response = tool_call_response("get_weather", st("{\"city\":\"London\"}"));
    let projected = sc.extract_tool_call_features(&response);
    let response2 = tool_call_response("get_weather", obj(vec![("city", st("London"))]));
    assert_eq!(projected, sc.extract_tool_call_features(&response2));
}

#[test]
fn hierarchical_vote_empty_list_error() {
    let result = select_hierarchical_most_common_or_random(&vec![]);
    assert!(result.is_err());
}

#[test]
fn hierarchical_vote_single_element_tuples_fallback() {
    let values = vec![
        ProjectedValue::Tuple(vec![Some("a".into())]),
        ProjectedValue::Tuple(vec![Some("a".into())]),
        ProjectedValue::Tuple(vec![Some("b".into())]),
    ];
    let (counts, sel) = select_hierarchical_most_common_or_random(&values).unwrap();
    assert_eq!(counts.get(&values[0]), 2);
    assert!(sel == 0 || sel == 1);
}

#[test]
fn hierarchical_vote_narrows_by_level() {
    let values = vec![
        ProjectedValue::Tuple(vec![Some("weather".into()), Some("London".into())]),
        ProjectedValue::Tuple(vec![Some("weather".into()), Some("London".into())]),
        ProjectedValue::Tuple(vec![Some("weather".into()), Some("Paris".into())]),
        ProjectedValue::Tuple(vec![Some("time".into()), Some("UTC".into())]),
    ];
    let (_, sel) = select_hierarchical_most_common_or_random(&values).unwrap();
    match &values[sel] {
        ProjectedValue::Tuple(t) => {
            assert_eq!(t[0], Some("weather".into()));
            assert_eq!(t[1], Some("London".into()));
        },
        _ => panic!("expected Tuple"),
    }
}

#[test]
fn filter_args_removes_excluded() {
    let args = obj(vec![("city", st("London")), ("timestamp", st("t1")), ("request_id", st("abc"))]);
    let exclude = vec!["timestamp".to_string(), "request_id".to_string()];
    assert_eq!(filter_args(&args, &exclude), obj(vec![("city", st("London"))]));
}

#[test]
fn filter_args_non_object_passthrough() {
    let args = st("just a string");
    assert_eq!(filter_args(&args, &vec!["foo".to_string()]), st("just a string"));
}

#[test]
fn tool_call_no_tool_calls_returns_none() {
    let sc = SelfConsistency::new(None, Some(ToolVoteStrategy::Name)).unwrap();
    let response = content_response("hello");
    assert_eq!(sc.extract_tool_call_features(&response), ProjectedValue::Single(None));
}

#[test]
fn tool_call_hierarchical_no_tool_calls_returns_none_tuple() {
    let sc = SelfConsistency::new(None, Some(ToolVoteStrategy::Hierarchical { exclude: vec![] })).unwrap();
    let response = content_response("hello");
    assert_eq!(sc.extract_tool_call_features(&response), ProjectedValue::Tuple(vec![None, None]));
}

#[test]
fn single_response_returns_it() {
    let sc = SelfConsistency::new(None, None).unwrap();
    let responses = vec![content_response("only one")];
    let sel = selected(&sc, &responses);
    assert_eq!(get(&sel, "content"), &st("only one"));
}

#[test]
fn majority_threshold_exact_half() {
    let sc = SelfConsistency::new(None, Some(ToolVoteStrategy::Name)).unwrap();
    let responses = vec![
        tool_call_response("fn1", obj(vec![])),
        tool_call_response("fn1", obj(vec![])),
        content_response("hello"),
        content_response("world"),
    ];
    let sel = selected(&sc, &responses);
    assert!(has_tool_calls(&sel), "2/4 tool calls meets ceil(4/2)=2 threshold");
}

#[test]
fn invalid_regex_returns_error() {
    let result = SelfConsistency::new(Some(vec!["[invalid".into()]), None);
    assert!(result.is_err());
}

#[test]
fn test_regex_case_insensitive() {
    let sc = SelfConsistency::new(Some(vec![r"answer:\s*(\w+)".into()]), None).unwrap();
    assert_eq!(sc.project_content(&content_response("answer: yes")), ProjectedValue::Tuple(vec![Some("yes".into())]));
    assert_eq!(sc.project_content(&content_response("ANSWER: YES")), ProjectedValue::Tuple(vec![Some("YES".into())]));
    assert_eq!(sc.project_content(&content_response("Answer: Yes")), ProjectedValue::Tuple(vec![Some("Yes".into())]));
}

#[test]
fn test_regex_dotall() {
    let sc = SelfConsistency::new(Some(vec![r"<answer>(.*)</answer>".into()]), None).unwrap();
    let response = content_response("<answer>line1\nline2\nline3</answer>");
    assert_eq!(sc.project_content(&response), ProjectedValue::Tuple(vec![Some("line1\nline2\nline3".into())]));
}

fn last_digit(response: &JsonValue) -> ProjectedValue {
    let content = its_hub_rs::responses::extract_content_from_lm_response(response);
    let num: Option<String> = content
        .chars()
        .filter(|c| c.is_ascii_digit())
        .collect::<String>()
        .parse::<u64>()
        .ok()
        .map(|n| (n % 10).to_string());
    ProjectedValue::Single(num)
}

#[test]
fn custom_projection_function() {
    let p1 = last_digit(&content_response("The answer is 42"));
    let p2 = last_digit(&content_response("I think 12"));
    let p3 = last_digit(&content_response("Result: 52"));
    assert_eq!(p1, ProjectedValue::Single(Some("2".into())));
    assert_eq!(p2, ProjectedValue::Single(Some("2".into())));
    assert_eq!(p3, ProjectedValue::Single(Some("2".into())));
    assert_eq!(p1, p2);
}

#[test]
fn custom_projection_process_responses() {
    let sc = SelfConsistency::new(None, None).unwrap();
    let responses = vec![content_response("hello"), content_response("hello"), content_response("world")];
    let custom: Vec<ProjectedValue> = responses
        .iter()
        .map(|r| ProjectedValue::Single(Some(its_hub_rs::responses::extract_content_from_lm_response(r).to_uppercase())))
        .collect();
    let sel = sc.process_responses_with(&responses, &custom).unwrap();
    assert_eq!(get(&responses[sel.selected_index], "content"), &st("hello"));
}

#[test]
fn test_self_consistency_flat_projection_process_responses() {
    let sc = SelfConsistency::new(None, None).unwrap();
    let responses = vec![
        content_response("answer1"),
        content_response("answer2"),
        content_response("answer1"),
        content_response("answer3"),
    ];
    let sel = sc.process_responses(&responses).unwrap();
    match vote_output(&responses, &sel, false) {
        AlgorithmOutput::Full { selected, metadata } => {
            assert_eq!(get(&selected, "content"), &st("answer1"));
            assert_eq!(get(&metadata, "algorithm"), &st("self-consistency"));
            let counts = get(&metadata, "response_counts");
            assert_eq!(get(counts, "answer1"), &num(2));
            assert_eq!(get(counts, "answer2"), &num(1));
            assert_eq!(get(counts, "answer3"), &num(1));
            get(&metadata, "selected_index");
            get(&metadata, "all_responses");
        },
        _ => panic!("expected Full"),
    }
}

#[test]
fn test_self_consistency_hierarchical_projection_process_responses() {
    let sc = SelfConsistency::new(Some(vec![r"Approach:\s*(\w+)".into(), r"\\boxed\{([^}]+)\}".into()]), None).unwrap();
    let responses = vec![
        content_response(r"Approach: algebra\nSolution: \boxed{42}"),
        content_response(r"Approach: algebra\nSolution: \boxed{24}"),
        content_response(r"Approach: geometry\nSolution: \boxed{42}"),
        content_response(r"Approach: calculus\nSolution: \boxed{30}"),
    ];
    let sel = selected(&sc, &responses);
    match get(&sel, "content") {
        JsonValue::Str(c) => assert!(c.contains("algebra"), "should select from algebra approach (most common at level 0)"),
        _ => panic!(),
    }
}

#[test]
fn test_self_consistency_return_response_only_false() {
    let sc = SelfConsistency::new(None, None).unwrap();
    let responses = vec![content_response("a1"), content_response("a2"), content_response("b1"), content_response("c1")];
    let sel = sc.process_responses(&responses).unwrap();
    match vote_output(&responses, &sel, false) {
        AlgorithmOutput::Full { metadata, .. } => {
            assert_eq!(get(&metadata, "algorithm"), &st("self-consistency"));
            match get(&metadata, "all_responses") {
                JsonValue::Array(items) => assert_eq!(items.len(), 4),
                _ => panic!(),
            }
            assert!(matches!(get(&metadata, "response_counts"), JsonValue::Object(_)));
            assert!(matches!(get(&metadata, "selected_index"), JsonValue::Number(_)));
        },
        _ => panic!("expected Full"),
    }
}

#[test]
fn regex_projection_compiles_every_pattern_or_reports_the_first_error() {
    match create_regex_projection_function(vec![r"\\boxed\{(.+?)\}".to_string(), r"answer: (\d+)".to_string()]) {
        Ok(Projection::Regex(ps)) => assert_eq!(ps.len(), 2),
        _ => panic!("expected a regex projection"),
    }
    match create_regex_projection_function(Vec::new()) {
        Ok(Projection::Regex(ps)) => assert!(ps.is_empty()),
        _ => panic!("expected an empty regex projection"),
    }
    let bad = create_regex_projection_function(vec!["ok".to_string(), "(unclosed".to_string(), "[also".to_string()]);
    match bad {
        Err(e) => assert!(e.contains("unclosed group"), "{}", e),
        Ok(_) => panic!("expected a compile error"),
    }
}

#[test]
fn a_strict_majority_always_wins() {
    let values = vec![single("b"), single("a"), single("c"), single("a"), single("a")];
    for _ in 0..50 {
        let (counts, sel) = select_most_common_or_random(&values);
        assert_eq!(values[sel], single("a"));
        assert_eq!(counts.get(&single("a")), 3);
    }
}
