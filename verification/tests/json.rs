use its_hub_rs::canonical::{canonical_json, json_quote};
use its_hub_rs::json::{get_member, insert_member, JsonValue};

fn s(text: &str) -> JsonValue {
    JsonValue::Str(text.to_string())
}

#[test]
fn a_written_member_reads_back_and_others_stay() {
    let mut ms: Vec<(String, JsonValue)> = vec![("model".to_string(), s("a")), ("stop".to_string(), s("x"))];
    insert_member(&mut ms, "model".to_string(), s("b"));
    insert_member(&mut ms, "tools".to_string(), JsonValue::Bool(true));
    let obj = JsonValue::Object(ms);
    assert_eq!(get_member(&obj, "model"), Some(&s("b")));
    assert_eq!(get_member(&obj, "tools"), Some(&JsonValue::Bool(true)));
    assert_eq!(get_member(&obj, "stop"), Some(&s("x")));
    assert_eq!(get_member(&obj, "missing"), None);
    match &obj {
        JsonValue::Object(ms) => {
            let keys: Vec<&str> = ms.iter().map(|(k, _)| k.as_str()).collect();
            assert_eq!(keys, vec!["model", "stop", "tools"]);
        }
        _ => panic!("expected an object"),
    }
}

#[test]
fn lookups_find_the_first_member_of_a_name() {
    let obj = JsonValue::Object(vec![("k".to_string(), s("first")), ("k".to_string(), s("second"))]);
    assert_eq!(get_member(&obj, "k"), Some(&s("first")));
    assert_eq!(get_member(&s("not an object"), "k"), None);
}

#[test]
fn strings_are_quoted_and_escaped_as_serde_json_writes_them() {
    assert_eq!(json_quote("plain"), "\"plain\"");
    assert_eq!(json_quote("a\"b\\c"), "\"a\\\"b\\\\c\"");
    assert_eq!(json_quote("\u{8}\t\n\u{c}\r"), "\"\\b\\t\\n\\f\\r\"");
    assert_eq!(json_quote("\u{1}\u{1f}é"), "\"\\u0001\\u001fé\"");
    assert_eq!(canonical_json(&s("x\ny")), "\"x\\ny\"");
}
