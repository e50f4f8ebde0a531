use its_hub_rs::text::{decimal_text, join_strings, replace_text, trim_text};

#[test]
fn trimming_removes_unicode_white_space_at_both_ends() {
    assert_eq!(trim_text("\u{3000} a  b\u{85}\t\n"), "a  b");
    assert_eq!(trim_text("\u{200b}x"), "\u{200b}x");
    assert_eq!(trim_text("   "), "");
}

#[test]
fn text_helpers() {
    assert_eq!(join_strings(&vec!["a".to_string(), "b".to_string()], ", "), "a, b");
    assert_eq!(replace_text("{x} and {x}", "{x}", "y"), "y and y");
    assert_eq!(decimal_text(0), "0");
    assert_eq!(decimal_text(1234), "1234");
}
