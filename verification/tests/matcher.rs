use bterm::matcher::{Pattern, PatternMatcher, SubstringMatcher};

#[test]
fn substring_matches_and_misses() {
    let p = SubstringMatcher.compile("rust", false).expect("compile");
    assert!(p.is_match("we love rust here"));
    assert!(!p.is_match("no match"));
    assert!(!p.is_match("RUST"), "case-sensitive by default");
}

#[test]
fn substring_case_insensitive() {
    let p = SubstringMatcher.compile("RuSt", true).expect("compile");
    assert!(p.is_match("RUST LANG"));
    assert!(p.is_match("rust lang"));
}

#[test]
fn empty_pattern_matches_everything() {
    let p = SubstringMatcher.compile("", false).expect("compile");
    assert!(p.is_match("anything"));
    assert!(p.is_match(""));
}
