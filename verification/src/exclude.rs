//! The decision whether an entry is left out of the tree.

use vstd::prelude::*;
use crate::ignore::{default_excludes, loaded_rules, rules_in, RuleSet};
use crate::pattern::{
    contains_wildcard, has_wildcard, lemma_pattern_matches_itself, parsed_as, pattern_matches,
    wildcard_match_chars, wildcard_matches, ParseError, Pattern, PatternModel,
};
use crate::text::to_chars;

verus! {

/// The patterns of a list, each as plain text.
pub open spec fn patterns_view(patterns: Seq<Pattern>) -> Seq<PatternModel> {
    patterns.map_values(|p: Pattern| p@)
}

/// Whether some exception pattern matches `name`.
pub open spec fn excepted(name: Seq<char>, exceptions: Seq<PatternModel>) -> bool {
    exists|i: int| 0 <= i < exceptions.len() && pattern_matches(#[trigger] exceptions[i], name)
}

/// Whether an ignore rule covers `name`: as a wildcard pattern where the
/// rule holds `*` or `?`, else by being the same text.
pub open spec fn rule_covers(rule: Seq<char>, name: Seq<char>) -> bool {
    if has_wildcard(rule) {
        wildcard_matches(rule, name)
    } else {
        rule == name
    }
}

/// Whether some ignore rule covers `name`.
pub open spec fn ignored(name: Seq<char>, rules: Set<Seq<char>>) -> bool {
    exists|rule: Seq<char>| rules.contains(rule) && #[trigger] rule_covers(rule, name)
}

/// Whether `name` is left out. An exception that matches keeps it in,
/// whatever else holds. Otherwise it is left out where it is one of the
/// manual excludes, letter for letter, or where an ignore rule covers it.
pub open spec fn excluded(
    name: Seq<char>,
    manual_excludes: Set<Seq<char>>,
    ignore_rules: Set<Seq<char>>,
    exceptions: Seq<PatternModel>,
) -> bool {
    !excepted(name, exceptions) && (manual_excludes.contains(name) || ignored(name, ignore_rules))
}

/// Whether some pattern of the list matches `name`; the first match ends
/// the search.
pub fn matches_any(exceptions: &Vec<Pattern>, name: &str) -> (b: bool)
    ensures
        b == excepted(name@, patterns_view(exceptions@)),
{
    let mut i: usize = 0;
    while i < exceptions.len()
        invariant
            i <= exceptions.len(),
            forall|j: int| 0 <= j < i ==> !pattern_matches(#[trigger] patterns_view(exceptions@)[j], name@),
        decreases exceptions.len() - i,
    {
        if exceptions[i].matches(name) {
            assert(pattern_matches(patterns_view(exceptions@)[i as int], name@));
            return true;
        }
        i += 1;
    }
    false
}

/// Whether some rule of the set covers `name`.
pub fn covered_by(rules: &RuleSet, name: &str) -> (b: bool)
    ensures
        b == ignored(name@, rules@),
{
    let text = to_chars(name);
    let n = rules.len();
    proof {
        rules.lemma_listed();
    }
    let mut i: usize = 0;
    while i < n
        invariant
            i <= n,
            n == rules.listed().len(),
            rules@ == rules.listed().to_set(),
            text@ == name@,
            forall|j: int| 0 <= j < i ==> !rule_covers(#[trigger] rules.listed()[j], name@),
        decreases n - i,
    {
        let rule = to_chars(rules.rule_at(i).as_str());
        let covers = if contains_wildcard(&rule) {
            wildcard_match_chars(&rule, &text)
        } else {
            same_chars(&rule, &text)
        };
        if covers {
            assert(rules.listed().contains(rules.listed()[i as int]));
            assert(rule_covers(rules.listed()[i as int], name@));
            return true;
        }
        i += 1;
    }
    assert(!ignored(name@, rules@)) by {
        if ignored(name@, rules@) {
            let rule = choose|rule: Seq<char>| rules@.contains(rule) && #[trigger] rule_covers(rule, name@);
            let j = choose|j: int| 0 <= j < rules.listed().len() && rules.listed()[j] == rule;
            assert(rule_covers(rules.listed()[j], name@));
        }
    }
    false
}

/// Whether two lists hold the same characters.
fn same_chars(a: &Vec<char>, b: &Vec<char>) -> (r: bool)
    ensures
        r == (a@ == b@),
{
    if a.len() != b.len() {
        return false;
    }
    let mut i: usize = 0;
    while i < a.len()
        invariant
            i <= a.len(),
            a.len() == b.len(),
            forall|j: int| 0 <= j < i ==> a@[j] == b@[j],
        decreases a.len() - i,
    {
        if a[i] != b[i] {
            return false;
        }
        i += 1;
    }
    assert(a@ =~= b@);
    true
}

/// Decides whether the entry `name` is left out of the tree.
///
/// An exception pattern that matches the name keeps the entry, whatever the
/// other rules say. Otherwise the entry is left out where its name is one of
/// the manual excludes, letter for letter, or where an ignore rule covers it.
pub fn should_exclude(
    name: &str,
    manual_excludes: &RuleSet,
    ignore_rules: &RuleSet,
    exceptions: &Vec<Pattern>,
) -> (b: bool)
    ensures
        b == excluded(name@, manual_excludes@, ignore_rules@, patterns_view(exceptions@)),
{
    if matches_any(exceptions, name) {
        return false;
    }
    if manual_excludes.contains(name) {
        return true;
    }
    covered_by(ignore_rules, name)
}

/// What decides exclusion, as plain values.
pub struct ConfigModel {
    pub manual_excludes: Set<Seq<char>>,
    pub ignore_rules: Set<Seq<char>>,
    pub exceptions: Seq<PatternModel>,
}

impl ConfigModel {
    /// Whether the configuration leaves `name` out.
    pub open spec fn excludes(self, name: Seq<char>) -> bool {
        excluded(name, self.manual_excludes, self.ignore_rules, self.exceptions)
    }
}

/// All that decides exclusion: the names given by hand, the rules of the
/// ignore files, and the exception patterns in the order given.
#[derive(Debug)]
pub struct ExclusionConfig {
    pub manual_excludes: RuleSet,
    pub ignore_rules: RuleSet,
    pub exceptions: Vec<Pattern>,
}

impl View for ExclusionConfig {
    type V = ConfigModel;

    open spec fn view(&self) -> ConfigModel {
        ConfigModel {
            manual_excludes: self.manual_excludes@,
            ignore_rules: self.ignore_rules@,
            exceptions: patterns_view(self.exceptions@),
        }
    }
}

impl ExclusionConfig {
    /// The configuration with the given manual excludes, ignore rules and
    /// exception patterns.
    pub fn new(manual: &Vec<String>, ignore_rules: RuleSet, exceptions: Vec<Pattern>) -> (config:
        ExclusionConfig)
        ensures
            config@.manual_excludes == manual.deep_view().to_set(),
            config@.ignore_rules == ignore_rules@,
            config@.exceptions == patterns_view(exceptions@),
    {
        ExclusionConfig { manual_excludes: RuleSet::from_names(manual), ignore_rules, exceptions }
    }

    /// Whether the configuration leaves the entry `name` out.
    pub fn excludes(&self, name: &str) -> (b: bool)
        ensures
            b == self@.excludes(name@),
    {
        should_exclude(name, &self.manual_excludes, &self.ignore_rules, &self.exceptions)
    }
}

/// The patterns among the outcomes of parsing, in order.
pub open spec fn accepted(outcomes: Seq<Result<Pattern, ParseError>>) -> Seq<Pattern>
    decreases outcomes.len(),
{
    if outcomes.len() == 0 {
        Seq::empty()
    } else {
        match outcomes.last() {
            Ok(p) => accepted(outcomes.drop_last()).push(p),
            Err(_) => accepted(outcomes.drop_last()),
        }
    }
}

/// The errors among the outcomes of parsing, in order.
pub open spec fn refused(outcomes: Seq<Result<Pattern, ParseError>>) -> Seq<ParseError>
    decreases outcomes.len(),
{
    if outcomes.len() == 0 {
        Seq::empty()
    } else {
        match outcomes.last() {
            Ok(_) => refused(outcomes.drop_last()),
            Err(e) => refused(outcomes.drop_last()).push(e),
        }
    }
}

/// Whether `outcomes` holds, place by place, what the raw strings may be
/// parsed as.
pub open spec fn outcomes_of(raws: Seq<Seq<char>>, outcomes: Seq<Result<Pattern, ParseError>>) -> bool {
    &&& outcomes.len() == raws.len()
    &&& forall|i: int| 0 <= i < raws.len() ==> parsed_as(raws[i], #[trigger] outcomes[i])
}

/// Parses the raw exception patterns in the order given. A pattern that the
/// regular-expression engine refuses is dropped from the list and reported;
/// the others stay, in their order.
pub fn parse_exceptions(raws: &Vec<String>) -> (r: (Vec<Pattern>, Vec<ParseError>))
    ensures
        exists|outcomes: Seq<Result<Pattern, ParseError>>|
            outcomes_of(raws.deep_view(), outcomes) && r.0@ == accepted(outcomes) && r.1@
                == refused(outcomes),
{
    let mut patterns: Vec<Pattern> = Vec::new();
    let mut errors: Vec<ParseError> = Vec::new();
    let ghost mut outcomes: Seq<Result<Pattern, ParseError>> = Seq::empty();
    let mut i: usize = 0;
    while i < raws.len()
        invariant
            i <= raws.len(),
            outcomes_of(raws.deep_view().take(i as int), outcomes),
            patterns@ == accepted(outcomes),
            errors@ == refused(outcomes),
        decreases raws.len() - i,
    {
        let outcome = Pattern::from_string(raws[i].as_str());
        proof {
            let longer = outcomes.push(outcome);
            assert(longer.drop_last() =~= outcomes);
            assert(raws.deep_view().take(i + 1) =~= raws.deep_view().take(i as int).push(
                raws[i as int]@,
            ));
            outcomes = longer;
        }
        match outcome {
            Ok(p) => {
                patterns.push(p);
            },
            Err(e) => {
                errors.push(e);
            },
        }
        i += 1;
    }
    assert(raws.deep_view().take(raws.len() as int) =~= raws.deep_view());
    (patterns, errors)
}

/// An exception overrides everything: a name that an exception pattern
/// matches is never left out, whatever the manual excludes and the ignore
/// rules hold.
pub proof fn lemma_exception_overrides(
    name: Seq<char>,
    manual_excludes: Set<Seq<char>>,
    ignore_rules: Set<Seq<char>>,
    exceptions: Seq<PatternModel>,
)
    requires
        excepted(name, exceptions),
    ensures
        !excluded(name, manual_excludes, ignore_rules, exceptions),
{
}

/// Manual excludes never match a prefix or a pattern: where no ignore rule
/// and no exception speaks of a name, the name is left out exactly if it is
/// one of the manual excludes, letter for letter.
pub proof fn lemma_manual_excludes_are_exact(
    name: Seq<char>,
    manual_excludes: Set<Seq<char>>,
    ignore_rules: Set<Seq<char>>,
    exceptions: Seq<PatternModel>,
)
    requires
        !excepted(name, exceptions),
        !ignored(name, ignore_rules),
    ensures
        excluded(name, manual_excludes, ignore_rules, exceptions) <==> manual_excludes.contains(
            name,
        ),
{
}

/// A rule covers its own text, so a name that is itself a rule is ignored.
pub proof fn lemma_rule_covers_itself(name: Seq<char>, rules: Set<Seq<char>>)
    requires
        rules.contains(name),
    ensures
        rule_covers(name, name),
        ignored(name, rules),
{
    lemma_pattern_matches_itself(name);
    assert(rules.contains(name) && rule_covers(name, name));
}

/// With the built-in names in force, each of them is left out unless an
/// exception brings it back, whatever the ignore files hold.
pub proof fn lemma_defaults_are_excluded(
    name: Seq<char>,
    contents: Seq<Seq<char>>,
    manual_excludes: Set<Seq<char>>,
    exceptions: Seq<PatternModel>,
)
    requires
        default_excludes().contains(name),
        !excepted(name, exceptions),
    ensures
        excluded(name, manual_excludes, loaded_rules(contents, false), exceptions),
{
    lemma_rule_covers_itself(name, loaded_rules(contents, false));
}

/// With the built-in names suppressed, a name is left out only for the
/// caller's own reasons: where it is no manual exclude and no ignore file
/// holds a rule that covers it, the name stays in, a built-in name too.
pub proof fn lemma_suppressed_defaults_are_shown(
    name: Seq<char>,
    contents: Seq<Seq<char>>,
    manual_excludes: Set<Seq<char>>,
    exceptions: Seq<PatternModel>,
)
    requires
        !manual_excludes.contains(name),
        forall|i: int| 0 <= i < contents.len() ==> !ignored(name, rules_in(#[trigger] contents[i])),
    ensures
        !excluded(name, manual_excludes, loaded_rules(contents, true), exceptions),
{
    let rules = loaded_rules(contents, true);
    if ignored(name, rules) {
        let rule = choose|rule: Seq<char>| rules.contains(rule) && #[trigger] rule_covers(rule, name);
        let i = choose|i: int| 0 <= i < contents.len() && rules_in(#[trigger] contents[i]).contains(rule);
        assert(ignored(name, rules_in(contents[i])));
    }
}

/// Whether the engine said yes to the same places of two lists of outcomes.
pub open spec fn same_answers(
    first: Seq<Result<Pattern, ParseError>>,
    second: Seq<Result<Pattern, ParseError>>,
) -> bool {
    &&& first.len() == second.len()
    &&& forall|j: int| 0 <= j < first.len() ==> ((#[trigger] first[j]) is Ok <==> (
    #[trigger] second[j]) is Ok)
}

/// A refused pattern leaves no trace in the list of patterns: the list is
/// what it would be had the refused string never been given.
pub proof fn lemma_refused_leaves_no_trace(outcomes: Seq<Result<Pattern, ParseError>>, i: int)
    requires
        0 <= i < outcomes.len(),
        outcomes[i] is Err,
    ensures
        accepted(outcomes) == accepted(outcomes.remove(i)),
    decreases outcomes.len(),
{
    let shorter = outcomes.remove(i);
    if i == outcomes.len() - 1 {
        assert(shorter =~= outcomes.drop_last());
    } else {
        assert(shorter.last() == outcomes.last());
        assert(shorter.drop_last() =~= outcomes.drop_last().remove(i));
        lemma_refused_leaves_no_trace(outcomes.drop_last(), i);
    }
}

/// What the patterns match depends on the raw strings and on the engine's
/// yes or no alone: two parses of one list of raw strings in which the
/// engine accepted the same strings give the same patterns.
pub proof fn lemma_same_answers_same_patterns(
    raws: Seq<Seq<char>>,
    first: Seq<Result<Pattern, ParseError>>,
    second: Seq<Result<Pattern, ParseError>>,
)
    requires
        outcomes_of(raws, first),
        outcomes_of(raws, second),
        same_answers(first, second),
    ensures
        patterns_view(accepted(first)) == patterns_view(accepted(second)),
    decreases raws.len(),
{
    if raws.len() == 0 {
        assert(patterns_view(accepted(first)) =~= patterns_view(accepted(second)));
    } else {
        let front = raws.drop_last();
        let first_front = first.drop_last();
        let second_front = second.drop_last();
        assert forall|j: int| 0 <= j < front.len() implies parsed_as(
            front[j],
            #[trigger] first_front[j],
        ) by {
            assert(parsed_as(raws[j], first[j]));
        }
        assert forall|j: int| 0 <= j < front.len() implies parsed_as(
            front[j],
            #[trigger] second_front[j],
        ) by {
            assert(parsed_as(raws[j], second[j]));
        }
        assert forall|j: int| 0 <= j < first_front.len() implies ((#[trigger] first_front[j]) is Ok
            <==> (#[trigger] second_front[j]) is Ok) by {
            assert(first[j] is Ok <==> second[j] is Ok);
        }
        lemma_same_answers_same_patterns(front, first_front, second_front);
        let n = raws.len() - 1;
        assert(parsed_as(raws[n], first[n]));
        assert(parsed_as(raws[n], second[n]));
        assert(first[n] is Ok <==> second[n] is Ok);
        match (first.last(), second.last()) {
            (Ok(p), Ok(q)) => {
                assert(p@ == q@);
                assert(patterns_view(accepted(first_front).push(p)) =~= patterns_view(
                    accepted(first_front),
                ).push(p@));
                assert(patterns_view(accepted(second_front).push(q)) =~= patterns_view(
                    accepted(second_front),
                ).push(q@));
            },
            _ => {},
        }
    }
}

/// Only the refused pattern is dropped. Take a list of raw exception
/// patterns of which the engine refuses one, and the same list without that
/// one. Where the engine answers for the other strings as it did before,
/// both lists give the same patterns, so no name is excepted under one and
/// not under the other.
///
/// That the engine answers alike for one string is asked for here, not
/// claimed: its answer is its own.
pub proof fn lemma_refused_exception_changes_nothing(
    raws: Seq<Seq<char>>,
    outcomes: Seq<Result<Pattern, ParseError>>,
    i: int,
    without: Seq<Result<Pattern, ParseError>>,
)
    requires
        outcomes_of(raws, outcomes),
        0 <= i < raws.len(),
        outcomes[i] is Err,
        outcomes_of(raws.remove(i), without),
        same_answers(outcomes.remove(i), without),
    ensures
        patterns_view(accepted(outcomes)) == patterns_view(accepted(without)),
        forall|name: Seq<char>|
            excepted(name, patterns_view(accepted(outcomes))) == excepted(
                name,
                patterns_view(accepted(without)),
            ),
{
    let shorter = outcomes.remove(i);
    let fewer = raws.remove(i);
    lemma_refused_leaves_no_trace(outcomes, i);
    assert forall|j: int| 0 <= j < fewer.len() implies parsed_as(fewer[j], #[trigger] shorter[j]) by {
        if j < i {
            assert(parsed_as(raws[j], outcomes[j]));
        } else {
            assert(parsed_as(raws[j + 1], outcomes[j + 1]));
        }
    }
    lemma_same_answers_same_patterns(fewer, shorter, without);
}

} // verus!
