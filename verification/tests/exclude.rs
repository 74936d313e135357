use tree2::exclude::{covered_by, matches_any, parse_exceptions, should_exclude, ExclusionConfig};
use tree2::ignore::{load_rules, RuleSet};
use tree2::pattern::Pattern;

fn strings(items: &[&str]) -> Vec<String> {
    items.iter().map(|s| s.to_string()).collect()
}

fn set(items: &[&str]) -> RuleSet {
    RuleSet::from_names(&strings(items))
}

fn patterns(raws: &[&str]) -> Vec<Pattern> {
    let (patterns, errors) = parse_exceptions(&strings(raws));
    assert!(errors.is_empty());
    patterns
}

#[test]
fn exact_exclusion_never_prefix_matches() {
    let manual = set(&[".git"]);
    let none = RuleSet::new();
    assert!(!should_exclude(".github", &manual, &none, &Vec::new()));
    assert!(should_exclude(".git", &manual, &none, &Vec::new()));
    assert!(!should_exclude(".gi", &manual, &none, &Vec::new()));
}

#[test]
fn manual_excludes_are_no_patterns() {
    let manual = set(&["*.log"]);
    let none = RuleSet::new();
    assert!(!should_exclude("error.log", &manual, &none, &Vec::new()));
    assert!(should_exclude("*.log", &manual, &none, &Vec::new()));
}

#[test]
fn exception_overrides_an_ignore_rule() {
    let none = RuleSet::new();
    let rules = set(&["*.secret"]);
    let exceptions = patterns(&["keep.secret"]);
    assert!(!should_exclude("keep.secret", &none, &rules, &exceptions));
    assert!(should_exclude("x.secret", &none, &rules, &exceptions));
}

#[test]
fn exception_overrides_a_manual_exclude() {
    let manual = set(&["build"]);
    let rules = set(&["build"]);
    let exceptions = patterns(&["b*"]);
    assert!(!should_exclude("build", &manual, &rules, &exceptions));
    assert!(should_exclude("build", &manual, &rules, &Vec::new()));
}

#[test]
fn ignore_rules_with_wildcards_match_as_patterns() {
    let none = RuleSet::new();
    let rules = set(&["*.tmp", "cache?", "target"]);
    assert!(covered_by(&rules, "a.tmp"));
    assert!(covered_by(&rules, "cache1"));
    assert!(covered_by(&rules, "target"));
    assert!(!covered_by(&rules, "cache"));
    assert!(!covered_by(&rules, "targets"));
    assert!(!covered_by(&rules, "a.tmp.bak"));
    assert!(should_exclude("a.tmp", &none, &rules, &Vec::new()));
    assert!(!should_exclude("a.txt", &none, &rules, &Vec::new()));
}

#[test]
fn nothing_is_excluded_without_rules() {
    let none = RuleSet::new();
    assert!(!should_exclude("anything", &none, &none, &Vec::new()));
    assert!(!should_exclude("", &none, &none, &Vec::new()));
}

#[test]
fn the_first_matching_exception_decides() {
    let exceptions = patterns(&["a", "*.rs", "regex:^lib"]);
    assert!(matches_any(&exceptions, "a"));
    assert!(matches_any(&exceptions, "main.rs"));
    assert!(matches_any(&exceptions, "library"));
    assert!(!matches_any(&exceptions, "b"));
    assert!(!matches_any(&Vec::new(), "a"));
}

#[test]
fn a_refused_expression_is_dropped_and_the_rest_stays() {
    let (patterns, errors) = parse_exceptions(&strings(&["keep.*", "regex:[", "exact", "regex:(", "regex:^x"]));
    assert_eq!(patterns.len(), 3);
    assert!(matches!(&patterns[0], Pattern::Wildcard(s) if s == "keep.*"));
    assert!(matches!(&patterns[1], Pattern::Exact(s) if s == "exact"));
    assert!(matches!(&patterns[2], Pattern::Regex(re) if re.as_str() == "^x"));
    assert_eq!(errors.len(), 2);
    assert_eq!(errors[0].pattern, "regex:[");
    assert_eq!(errors[1].pattern, "regex:(");
}

#[test]
fn default_excludes_apply_unless_suppressed() {
    let none = Vec::new();
    let with_defaults = ExclusionConfig::new(&none, load_rules(&Vec::new(), false), Vec::new());
    let show_all = ExclusionConfig::new(&none, load_rules(&Vec::new(), true), Vec::new());
    assert!(with_defaults.excludes(".git"));
    assert!(with_defaults.excludes("Thumbs.db"));
    assert!(!with_defaults.excludes(".github"));
    assert!(!show_all.excludes(".git"));
    assert!(!show_all.excludes("Thumbs.db"));
}

#[test]
fn an_exception_brings_a_default_exclude_back() {
    let config = ExclusionConfig::new(&Vec::new(), load_rules(&Vec::new(), false), patterns(&[".git"]));
    assert!(!config.excludes(".git"));
    assert!(config.excludes(".svn"));
}

#[test]
fn config_holds_what_it_was_given() {
    let config = ExclusionConfig::new(
        &strings(&["node_modules", "node_modules"]),
        load_rules(&strings(&["*.o\n"]), true),
        patterns(&["keep.o"]),
    );
    assert_eq!(config.manual_excludes.len(), 1);
    assert_eq!(config.ignore_rules.len(), 1);
    assert_eq!(config.exceptions.len(), 1);
    assert!(config.excludes("node_modules"));
    assert!(config.excludes("a.o"));
    assert!(!config.excludes("keep.o"));
    assert!(!config.excludes("src"));
}
