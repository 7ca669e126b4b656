use illiol::regex::Regex;

#[test]
fn is_match_searches_the_text() {
    let re = Regex::new("b+");
    assert!(re.is_match("aabbcc"));
    assert!(!re.is_match("aacc"));
    assert!(!re.is_match(""));
    assert!(Regex::new("").is_match("anything"));
    assert!(Regex::new("^$").is_match(""));
    assert!(!Regex::new("^$").is_match("b+"));
}

#[test]
fn is_match_is_not_text_equality() {
    assert!(!Regex::new("a.c").is_match("a.b"));
    assert!(Regex::new("a.c").is_match("abc"));
    assert!(!Regex::new("[").is_match("["));
}

#[test]
fn a_pattern_that_does_not_compile_matches_nothing() {
    let re = Regex::new("(unclosed");
    assert!(!re.is_valid());
    assert!(!re.is_match("(unclosed"));
    assert!(!re.is_match(""));
    assert!(Regex::new("(closed)").is_valid());
}

#[test]
fn patterns_compare_by_text() {
    assert!(Regex::new("a|b").same(&Regex::new("a|b")));
    assert!(!Regex::new("a|b").same(&Regex::new("b|a")));
    assert_eq!(Regex::new("a|b"), Regex::new("a|b"));
    assert_ne!(Regex::new("a|b"), Regex::new("b|a"));
    assert_eq!(Regex::new("x+").as_str(), "x+");
    assert_eq!(Regex::new("x+").clone(), Regex::new("x+"));
}
