use docweave::{comment_content, decimal_string, has_whitespace, is_whitespace};

#[test]
fn comment_content_markers() {
    assert_eq!(comment_content("  /// x"), Some("x".to_string()));
    assert_eq!(comment_content("###  y "), Some(" y ".to_string()));
    assert_eq!(comment_content("///"), Some("".to_string()));
    assert_eq!(comment_content("// no"), None);
    assert_eq!(comment_content("##"), None);
    assert_eq!(comment_content("x /// late"), None);
    assert_eq!(comment_content("/#/ mixed"), None);
}

#[test]
fn whitespace_tests() {
    assert!(has_whitespace("a b"));
    assert!(has_whitespace("a\u{3000}b"));
    assert!(!has_whitespace("Foo_bar"));
    assert!(!has_whitespace(""));
    assert!(is_whitespace('\t'));
    assert!(is_whitespace('\u{a0}'));
    assert!(!is_whitespace('x'));
}

#[test]
fn decimal_strings() {
    assert_eq!(decimal_string(0), "0");
    assert_eq!(decimal_string(4), "4");
    assert_eq!(decimal_string(120), "120");
    assert_eq!(decimal_string(usize::MAX), usize::MAX.to_string());
}
