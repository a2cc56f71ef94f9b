use silt_lua::error::SiltError;
use silt_lua::lua_pattern::{find, match_at, Capture, MatchResult};

fn found(src: &str, pat: &str, init: usize) -> Option<MatchResult> {
    find(src.as_bytes(), pat.as_bytes(), init).expect("pattern is valid")
}

fn message(src: &str, pat: &str) -> String {
    match find(src.as_bytes(), pat.as_bytes(), 0) {
        Err(SiltError::Custom(m)) => m,
        other => panic!("expected a pattern error, got {:?}", other),
    }
}

#[test]
fn plain_text_is_found_at_first_occurrence() {
    let m = found("hello world", "o w", 0).unwrap();
    assert_eq!((m.start, m.end), (4, 7));
    assert!(m.caps.is_empty());
}

#[test]
fn search_starts_at_init() {
    let m = found("abcabc", "abc", 1).unwrap();
    assert_eq!((m.start, m.end), (3, 6));
    assert!(found("abcabc", "abc", 4).is_none());
}

#[test]
fn anchor_pins_match_to_init() {
    assert!(found("xab", "^ab", 0).is_none());
    let m = found("xab", "^ab", 1).unwrap();
    assert_eq!((m.start, m.end), (1, 3));
}

#[test]
fn classes_and_repetition() {
    let m = found("abc 123 def", "%d+", 0).unwrap();
    assert_eq!((m.start, m.end), (4, 7));
    let m = found("  key", "%a+", 0).unwrap();
    assert_eq!((m.start, m.end), (2, 5));
    let m = found("aaab", "a-b", 0).unwrap();
    assert_eq!((m.start, m.end), (0, 4));
    let m = found("color colour", "colou?r", 1).unwrap();
    assert_eq!((m.start, m.end), (6, 12));
}

#[test]
fn sets_and_ranges() {
    let m = found("xyz-cab-", "[a-c]+", 0).unwrap();
    assert_eq!((m.start, m.end), (4, 7));
    let m = found("abc1", "[^%a]", 0).unwrap();
    assert_eq!((m.start, m.end), (3, 4));
}

#[test]
fn captures_are_reported_in_order() {
    let m = found("key = value", "(%w+) = (%w+)", 0).unwrap();
    assert_eq!((m.start, m.end), (0, 11));
    assert_eq!(m.caps, vec![Capture::Str(0, 3), Capture::Str(6, 11)]);
}

#[test]
fn position_capture_is_one_based() {
    let m = found("hello", "()ll()", 0).unwrap();
    assert_eq!(m.caps, vec![Capture::Pos(3), Capture::Pos(5)]);
}

#[test]
fn balanced_match() {
    let m = found("f(a(b)c) d", "%b()", 0).unwrap();
    assert_eq!((m.start, m.end), (1, 8));
}

#[test]
fn frontier_pattern() {
    let m = found("THE (quick) fox", "%f[%a]%a+", 4).unwrap();
    assert_eq!((m.start, m.end), (5, 10));
}

#[test]
fn back_reference() {
    let m = found("say \"hi\" now", "([\"'])(.-)%1", 0).unwrap();
    assert_eq!((m.start, m.end), (4, 8));
    assert_eq!(m.caps, vec![Capture::Str(4, 5), Capture::Str(5, 7)]);
}

#[test]
fn end_anchor() {
    let m = found("abcabc", "bc$", 0).unwrap();
    assert_eq!((m.start, m.end), (4, 6));
}

#[test]
fn match_at_does_not_search() {
    assert!(match_at(b"xab", b"ab", 0).unwrap().is_none());
    let m = match_at(b"xab", b"ab", 1).unwrap().unwrap();
    assert_eq!((m.start, m.end), (1, 3));
    let m = match_at(b"ab", b"^ab", 0).unwrap().unwrap();
    assert_eq!((m.start, m.end), (0, 2));
}

#[test]
fn empty_pattern_matches_empty_prefix() {
    let m = found("abc", "", 2).unwrap();
    assert_eq!((m.start, m.end), (2, 2));
}

#[test]
fn malformed_patterns_are_errors() {
    assert_eq!(message("abc", "[a"), "malformed pattern (missing ']')");
    assert_eq!(message("abc", "a%"), "malformed pattern (ends with '%')");
    assert_eq!(message("abc", "%b"), "missing arguments to '%b'");
    assert_eq!(message("abc", "%fa"), "missing '[' after '%f' in pattern");
    assert_eq!(message("abc", "a)"), "invalid pattern capture");
    assert_eq!(message("abc", "(a%2)"), "invalid capture index");
}

#[test]
fn long_plain_pattern_matches_in_one_call() {
    let src = "a".repeat(300);
    let m = match_at(src.as_bytes(), src.as_bytes(), 0).expect("no depth error").expect("a match");
    assert_eq!((m.start, m.end), (0, 300));
    let skipped = "b?".repeat(300) + "a";
    let m = match_at(b"a", skipped.as_bytes(), 0).expect("no depth error").expect("a match");
    assert_eq!(m.end, 1);
}
