use timeagent::text::{chars_of, contains_text, ends_with, same_text, starts_with, string_of};

#[test]
fn text_helpers() {
    assert_eq!(chars_of("héllo"), vec!['h', 'é', 'l', 'l', 'o']);
    assert_eq!(string_of(&vec!['a', 'ß']), "aß");
    assert!(same_text("abc", "abc"));
    assert!(!same_text("abc", "abd"));
    assert!(starts_with("https://x", "http"));
    assert!(!starts_with("ht", "http"));
    assert!(ends_with("sink.monitor", ".monitor"));
    assert!(!ends_with("monitor", ".monitor"));
    assert!(contains_text("fix login page", "login"));
    assert!(contains_text("abc", ""));
    assert!(!contains_text("abc", "abcd"));
}
