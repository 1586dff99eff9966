use awspolicy::glob::{glob_matches, pattern_from_glob};

#[test]
fn test_literal_pattern() {
    let pattern = pattern_from_glob("");
    assert_eq!(pattern, "^$");
    let pattern = pattern_from_glob("test");
    assert_eq!(pattern, "^test$");
}

#[test]
fn test_single_wildcard_pattern() {
    let pattern = pattern_from_glob("?");
    assert_eq!(pattern, "^.$");
    let pattern = pattern_from_glob("a?");
    assert_eq!(pattern, "^a.$");
    let pattern = pattern_from_glob("?b");
    assert_eq!(pattern, "^.b$");
    let pattern = pattern_from_glob("a?c");
    assert_eq!(pattern, "^a.c$");
}

#[test]
fn test_multi_wildcard_pattern() {
    let pattern = pattern_from_glob("*");
    assert_eq!(pattern, "^.*$");
    let pattern = pattern_from_glob("a*");
    assert_eq!(pattern, "^a.*$");
    let pattern = pattern_from_glob("*b");
    assert_eq!(pattern, "^.*b$");
    let pattern = pattern_from_glob("a*c");
    assert_eq!(pattern, "^a.*c$");
}

#[test]
fn test_literal() {
    assert!(glob_matches("", ""));
    assert!(glob_matches("sometext", "sometext"));
    assert!(! glob_matches("", "sometext"));
    assert!(! glob_matches("sometext", ""));
    assert!(! glob_matches("sometext", "sometextandmore"));
}

#[test]
fn test_single_wildcard() {
    assert!(glob_matches("a?c", "abc"));
    assert!(! glob_matches("a?c", "ac"));
    assert!(! glob_matches("a?c", "abbc"));
}

#[test]
fn test_multi_wildcard() {
    assert!(glob_matches("a*c", "ac"));
    assert!(glob_matches("a*c", "abc"));
    assert!(glob_matches("a*c", "abbc"));
    assert!(! glob_matches("a*c", "bc"));
    assert!(! glob_matches("a*c", "ab"));
}

#[test]
fn star_matches_any_string() {
    for t in ["", "a", "arn:aws:s3:::bucket/key", "with spaces and $^.()"] {
        assert!(glob_matches("*", t));
    }
}

#[test]
fn question_mark_matches_exactly_one_character() {
    assert!(glob_matches("?", "x"));
    assert!(glob_matches("?", "é"));
    assert!(!glob_matches("?", ""));
    assert!(!glob_matches("?", "xy"));
}

#[test]
fn meta_characters_are_literal() {
    assert_eq!(pattern_from_glob("a.b*"), "^a\\.b.*$");
    assert!(glob_matches("a.b*", "a.bcd"));
    assert!(!glob_matches("a.b*", "axbcd"));
    assert!(glob_matches("(x)?", "(x)!"));
    assert!(!glob_matches("(x)?", "x!"));
}
