use promptlab::text::{contains_char, same_text, text_before};

#[test]
fn text_comparisons() {
    assert!(same_text("abc", "abc"));
    assert!(!same_text("abc", "abd"));
    assert!(contains_char("a/b", '/'));
    assert!(!contains_char("ab", '\\'));
    assert!(text_before("2024-01", "2024-02"));
    assert!(text_before("ab", "abc"));
    assert!(!text_before("abc", "abc"));
}
