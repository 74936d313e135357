use tree2::pattern::{contains_wildcard, wildcard_match, ParseError, Pattern};

fn wildcard(p: &str) -> Pattern {
    Pattern::Wildcard(p.to_string())
}

#[test]
fn wildcard_matching_is_anchored() {
    assert!(wildcard("*.log").matches("error.log"));
    assert!(!wildcard("*.log").matches("error.log.bak"));
}

#[test]
fn wildcard_matching_is_anchored_at_the_start() {
    assert!(wildcard("test*").matches("test_one"));
    assert!(!wildcard("test*").matches("a_test_one"));
    assert!(!wildcard("est").matches("test"));
}

#[test]
fn star_matches_any_run() {
    assert!(wildcard("*").matches(""));
    assert!(wildcard("*").matches("anything"));
    assert!(wildcard("a*b").matches("ab"));
    assert!(wildcard("a*b").matches("axxxb"));
    assert!(!wildcard("a*b").matches("axxxbc"));
    assert!(wildcard("a*b*c").matches("a1b2b3c"));
    assert!(wildcard("**a**").matches("bab"));
    assert!(!wildcard("**a**").matches("bbb"));
}

#[test]
fn question_mark_matches_exactly_one_character() {
    assert!(wildcard("?").matches("a"));
    assert!(!wildcard("?").matches(""));
    assert!(!wildcard("?").matches("ab"));
    assert!(wildcard("file?.txt").matches("file1.txt"));
    assert!(!wildcard("file?.txt").matches("file12.txt"));
    assert!(wildcard("?").matches("é"));
    assert!(wildcard("?").matches("📁"));
    assert!(wildcard("a?c").matches("a日c"));
}

#[test]
fn wildcard_without_metacharacters_matches_itself_only() {
    assert!(wildcard("abc").matches("abc"));
    assert!(!wildcard("abc").matches("abcd"));
    assert!(!wildcard("abc").matches("ab"));
    assert!(wildcard("").matches(""));
    assert!(!wildcard("").matches("a"));
}

#[test]
fn wildcard_match_on_strings() {
    assert!(wildcard_match("*.rs", "main.rs"));
    assert!(!wildcard_match("*.rs", "main.rs.orig"));
    assert!(wildcard_match("*a*a*a*a*b", "aaaaaaaaaaaaaaaab"));
    assert!(!wildcard_match("*a*a*a*a*b", "aaaaaaaaaaaaaaaa"));
}

#[test]
fn exact_matches_the_whole_name_only() {
    let p = Pattern::Exact("keep.secret".to_string());
    assert!(p.matches("keep.secret"));
    assert!(!p.matches("keep.secrets"));
    assert!(!p.matches("keep"));
    assert!(!p.matches(""));
    let star = Pattern::Exact("a*".to_string());
    assert!(star.matches("a*"));
    assert!(!star.matches("ab"));
}

#[test]
fn from_string_picks_the_variant() {
    assert!(matches!(Pattern::from_string("name.txt"), Ok(Pattern::Exact(s)) if s == "name.txt"));
    assert!(matches!(Pattern::from_string("*.txt"), Ok(Pattern::Wildcard(s)) if s == "*.txt"));
    assert!(matches!(Pattern::from_string("file?"), Ok(Pattern::Wildcard(s)) if s == "file?"));
    assert!(matches!(Pattern::from_string(""), Ok(Pattern::Exact(s)) if s.is_empty()));
    assert!(matches!(Pattern::from_string("regex"), Ok(Pattern::Exact(s)) if s == "regex"));
    assert!(matches!(Pattern::from_string("Regex:a"), Ok(Pattern::Exact(s)) if s == "Regex:a"));
    assert!(matches!(Pattern::from_string("regex:^a.c$"), Ok(Pattern::Regex(re)) if re.as_str() == "^a.c$"));
    assert!(matches!(Pattern::from_string("regex:"), Ok(Pattern::Regex(re)) if re.as_str() == ""));
    assert!(matches!(Pattern::from_string("regex:*.txt"), Err(_)));
}

#[test]
fn regex_parse_failure_is_reported() {
    match Pattern::from_string("regex:[") {
        Ok(_) => panic!("an unclosed class must not compile"),
        Err(e) => {
            assert_eq!(e.pattern, "regex:[");
            assert!(!e.message.is_empty());
            assert_eq!(e.describe(), format!("invalid pattern 'regex:[': {}", e.message));
        }
    }
}

#[test]
fn regex_matches_any_part_of_the_name() {
    let p = Pattern::from_string("regex:\\.log").unwrap();
    assert!(p.matches("error.log"));
    assert!(p.matches("error.log.bak"));
    assert!(!p.matches("error.txt"));
    let anchored = Pattern::from_string("regex:^a.c$").unwrap();
    assert!(anchored.matches("abc"));
    assert!(!anchored.matches("xabc"));
}

#[test]
fn from_compiled_keeps_what_it_is_given() {
    let compiled = match Pattern::from_string("regex:ab+") {
        Ok(Pattern::Regex(compiled)) => compiled,
        _ => panic!("a valid expression compiles"),
    };
    match Pattern::from_compiled("regex:ab+", Ok(compiled)) {
        Ok(Pattern::Regex(compiled)) => {
            assert_eq!(compiled.as_str(), "ab+");
            let rule = Pattern::Regex(compiled);
            assert!(rule.matches("xabbby"));
            assert!(!rule.matches("xAbbby"));
            assert!(!rule.matches("a"));
        }
        _ => panic!("a compiled expression becomes a rule"),
    }
    match Pattern::from_compiled("regex:(", Err("unclosed group".to_string())) {
        Err(ParseError { pattern, message }) => {
            assert_eq!(pattern, "regex:(");
            assert_eq!(message, "unclosed group");
        }
        _ => panic!("a message becomes an error"),
    }
}

#[test]
fn contains_wildcard_sees_star_and_question_mark() {
    let chars = |s: &str| s.chars().collect::<Vec<char>>();
    assert!(contains_wildcard(&chars("a*")));
    assert!(contains_wildcard(&chars("?")));
    assert!(!contains_wildcard(&chars("plain.txt")));
    assert!(!contains_wildcard(&chars("")));
}
