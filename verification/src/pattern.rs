//! Matching rules for names: exact text, glob-style wildcards, and regular
//! expressions.

use vstd::prelude::*;
use crate::text::{from_chars, same_text, to_chars};

verus! {

/// Declares `regex::Regex`, a compiled regular expression. Nothing inside
/// it is seen here.
#[verifier::external_type_specification]
#[verifier::external_body]
pub struct ExRegex(regex::Regex);

/// Declares `regex::Error`, the engine's reason for refusing an expression.
/// Nothing inside it is seen here.
#[verifier::external_type_specification]
#[verifier::external_body]
pub struct ExRegexError(regex::Error);

/// A regular expression together with the text it was compiled from.
///
/// Only this library makes one, and only by compiling the text with the
/// engine's defaults, so the text says all there is to say of how the
/// expression matches.
#[derive(Debug)]
pub struct CompiledRegex {
    source: String,
    regex: regex::Regex,
}

impl CompiledRegex {
    /// The text that the expression was compiled from.
    pub closed spec fn source(&self) -> Seq<char> {
        self.source@
    }

    /// The text that the expression was compiled from.
    pub fn as_str(&self) -> (text: &str)
        ensures
            text@ == self.source(),
    {
        self.source.as_str()
    }
}

/// Whether the regular expression written as `source`, compiled with the
/// engine's defaults, finds a match somewhere in `text`: what
/// `Regex::is_match` answers for an expression that `Regex::new` built from
/// `source`.
pub uninterp spec fn regex_finds(source: Seq<char>, text: Seq<char>) -> bool;

/// Compiles a regular expression with the engine's defaults.
///
/// Trusted: stands for `regex::Regex::new`. The result keeps the text
/// beside what the engine built from it. Whether a text compiles is left to
/// the engine.
#[verifier::external_body]
fn compile_regex(source: &str) -> (r: Result<CompiledRegex, regex::Error>)
    ensures
        r matches Ok(compiled) ==> compiled.source() == source@,
{
    match regex::Regex::new(source) {
        Ok(regex) => Ok(CompiledRegex { source: source.to_owned(), regex }),
        Err(error) => Err(error),
    }
}

/// Searches `text` for a match of a compiled regular expression.
///
/// Trusted: stands for `regex::Regex::is_match`, which answers whether the
/// expression matches anywhere in the text. Claims that the answer depends
/// on the searched text and on the text that `Regex::new` built the
/// expression from; every `CompiledRegex` was built so.
#[verifier::external_body]
fn regex_is_match(compiled: &CompiledRegex, text: &str) -> (b: bool)
    ensures
        b == regex_finds(compiled.source(), text@),
{
    compiled.regex.is_match(text)
}

/// The engine's message for an expression that it refused.
///
/// Trusted: stands for the `Display` form of `regex::Error`, taken through
/// `to_string`. Nothing is claimed of the text.
#[verifier::external_body]
fn regex_error_text(error: &regex::Error) -> (s: String) {
    error.to_string()
}

/// The marker that selects a regular expression: `regex:`.
pub open spec fn regex_prefix() -> Seq<char> {
    seq!['r', 'e', 'g', 'e', 'x', ':']
}

/// Whether `raw` begins with `regex:`.
pub open spec fn has_regex_prefix(raw: Seq<char>) -> bool {
    raw.len() >= 6 && raw.take(6) == regex_prefix()
}

/// Whether `s` holds a wildcard character, `*` or `?`.
pub open spec fn has_wildcard(s: Seq<char>) -> bool {
    s.contains('*') || s.contains('?')
}

/// Glob-style matching of a whole name: `*` stands for any run of
/// characters, the empty one too, `?` for exactly one character, any other
/// character for itself. The pattern has to use up the whole text.
///
/// A `*` either stands for nothing, or takes one character and goes on.
pub open spec fn wildcard_matches(pattern: Seq<char>, text: Seq<char>) -> bool
    decreases pattern.len(), text.len(),
{
    if pattern.len() == 0 {
        text.len() == 0
    } else if pattern[0] == '*' {
        wildcard_matches(pattern.skip(1), text) || (text.len() > 0 && wildcard_matches(
            pattern,
            text.skip(1),
        ))
    } else {
        &&& text.len() > 0
        &&& (pattern[0] == '?' || pattern[0] == text[0])
        &&& wildcard_matches(pattern.skip(1), text.skip(1))
    }
}

/// What a pattern is, as plain text. A regular expression is known by the
/// text it was compiled from.
pub enum PatternModel {
    Exact(Seq<char>),
    Wildcard(Seq<char>),
    Regex(Seq<char>),
}

/// Whether a pattern matches a name. Exact and wildcard patterns match whole
/// names only; a regular expression may match any part of the name.
pub open spec fn pattern_matches(pattern: PatternModel, name: Seq<char>) -> bool {
    match pattern {
        PatternModel::Exact(s) => s == name,
        PatternModel::Wildcard(s) => wildcard_matches(s, name),
        PatternModel::Regex(s) => regex_finds(s, name),
    }
}

/// The pattern that a raw string without the `regex:` marker stands for.
pub open spec fn plain_pattern(raw: Seq<char>) -> PatternModel {
    if has_wildcard(raw) {
        PatternModel::Wildcard(raw)
    } else {
        PatternModel::Exact(raw)
    }
}

/// What a raw string may be parsed as. Without the `regex:` marker it is
/// the plain pattern of the string. With the marker the engine decides: the
/// outcome is the regular expression written after the marker, or an error
/// that carries the raw string.
pub open spec fn parsed_as(raw: Seq<char>, outcome: Result<Pattern, ParseError>) -> bool {
    if has_regex_prefix(raw) {
        match outcome {
            Ok(p) => p@ == PatternModel::Regex(raw.skip(6)),
            Err(e) => e.pattern@ == raw,
        }
    } else {
        outcome matches Ok(p) && p@ == plain_pattern(raw)
    }
}

/// A single matching rule.
#[derive(Debug)]
pub enum Pattern {
    /// Matches the name that equals the text.
    Exact(String),
    /// Matches the names that the glob-style text covers as a whole.
    Wildcard(String),
    /// Matches the names in which the expression finds a match.
    Regex(CompiledRegex),
}

impl View for Pattern {
    type V = PatternModel;

    open spec fn view(&self) -> PatternModel {
        match self {
            Pattern::Exact(s) => PatternModel::Exact(s@),
            Pattern::Wildcard(s) => PatternModel::Wildcard(s@),
            Pattern::Regex(compiled) => PatternModel::Regex(compiled.source()),
        }
    }
}

/// A raw pattern that could not be turned into a rule.
#[derive(Debug)]
pub struct ParseError {
    /// The raw pattern, marker included.
    pub pattern: String,
    /// What the regular-expression engine said of it.
    pub message: String,
}

/// Whether `chars` begins with `regex:`.
fn starts_with_regex_prefix(chars: &Vec<char>) -> (b: bool)
    ensures
        b == has_regex_prefix(chars@),
{
    if chars.len() < 6 {
        return false;
    }
    let b = chars[0] == 'r' && chars[1] == 'e' && chars[2] == 'g' && chars[3] == 'e' && chars[4]
        == 'x' && chars[5] == ':';
    proof {
        let head = chars@.take(6);
        if b {
            assert(head =~= regex_prefix());
        } else {
            assert(head[0] == chars@[0] && head[1] == chars@[1] && head[2] == chars@[2]);
            assert(head[3] == chars@[3] && head[4] == chars@[4] && head[5] == chars@[5]);
        }
    }
    b
}

/// Whether `chars` holds `*` or `?`.
pub fn contains_wildcard(chars: &Vec<char>) -> (b: bool)
    ensures
        b == has_wildcard(chars@),
{
    let mut i: usize = 0;
    while i < chars.len()
        invariant
            i <= chars.len(),
            forall|j: int| 0 <= j < i ==> chars@[j] != '*' && chars@[j] != '?',
        decreases chars.len() - i,
    {
        if chars[i] == '*' || chars[i] == '?' {
            return true;
        }
        i += 1;
    }
    false
}

/// A `*` at the head of a pattern may stand for the first `k` characters of
/// the text, whatever `k` is.
pub proof fn lemma_star_takes(pattern: Seq<char>, text: Seq<char>, k: int)
    requires
        pattern.len() > 0,
        pattern[0] == '*',
        0 <= k <= text.len(),
        wildcard_matches(pattern.skip(1), text.skip(k)),
    ensures
        wildcard_matches(pattern, text),
    decreases k,
{
    if k == 0 {
        assert(text.skip(0) =~= text);
    } else {
        assert(text.skip(1).skip(k - 1) =~= text.skip(k));
        lemma_star_takes(pattern, text.skip(1), k - 1);
    }
}

/// Where a pattern with a `*` at its head matches, the `*` stands for some
/// run at the head of the text: the rest of the pattern matches what is
/// left after `k` characters.
pub proof fn lemma_star_run(pattern: Seq<char>, text: Seq<char>) -> (k: int)
    requires
        pattern.len() > 0,
        pattern[0] == '*',
        wildcard_matches(pattern, text),
    ensures
        0 <= k <= text.len(),
        wildcard_matches(pattern.skip(1), text.skip(k)),
    decreases text.len(),
{
    if wildcard_matches(pattern.skip(1), text) {
        assert(text.skip(0) =~= text);
        0
    } else {
        let k = lemma_star_run(pattern, text.skip(1));
        assert(text.skip(1).skip(k) =~= text.skip(k + 1));
        k + 1
    }
}

/// A pattern without `*` and `?` matches its own text and nothing else.
pub proof fn lemma_literal_pattern(pattern: Seq<char>, text: Seq<char>)
    requires
        !has_wildcard(pattern),
    ensures
        wildcard_matches(pattern, text) <==> pattern == text,
    decreases pattern.len(),
{
    if pattern.len() == 0 {
        assert(text.len() == 0 <==> pattern =~= text);
    } else {
        let rest = pattern.skip(1);
        assert(pattern.contains(pattern[0]));
        assert forall|c: char| rest.contains(c) implies pattern.contains(c) by {
            let i = choose|i: int| 0 <= i < rest.len() && rest[i] == c;
            assert(pattern[i + 1] == c);
        }
        if text.len() > 0 {
            lemma_literal_pattern(rest, text.skip(1));
            if pattern[0] == text[0] && rest == text.skip(1) {
                assert(pattern =~= text) by {
                    assert forall|i: int| 0 <= i < pattern.len() implies pattern[i] == text[i] by {
                        if i > 0 {
                            assert(rest[i - 1] == text.skip(1)[i - 1]);
                        }
                    }
                }
            }
        }
    }
}

/// Every pattern matches its own text.
pub proof fn lemma_pattern_matches_itself(pattern: Seq<char>)
    ensures
        wildcard_matches(pattern, pattern),
    decreases pattern.len(),
{
    if pattern.len() > 0 {
        lemma_pattern_matches_itself(pattern.skip(1));
        if pattern[0] == '*' {
            lemma_star_takes(pattern, pattern, 1);
        }
    }
}

/// Matching is anchored at the start: a pattern that begins with an ordinary
/// character matches only texts that begin with that character.
pub proof fn lemma_anchored_at_start(pattern: Seq<char>, text: Seq<char>)
    requires
        pattern.len() > 0,
        pattern[0] != '*',
        pattern[0] != '?',
        wildcard_matches(pattern, text),
    ensures
        text.len() > 0,
        text[0] == pattern[0],
        wildcard_matches(pattern.skip(1), text.skip(1)),
{
}

/// Matching is anchored at the end: a pattern that ends with the ordinary
/// character `c` matches exactly the texts that end with `c` and whose
/// rest the rest of the pattern matches.
pub proof fn lemma_anchored_at_end(head: Seq<char>, c: char, text: Seq<char>)
    requires
        c != '*',
        c != '?',
    ensures
        wildcard_matches(head.push(c), text) <==> (text.len() > 0 && text.last() == c
            && wildcard_matches(head, text.drop_last())),
    decreases head.len(), text.len(),
{
    let whole = head.push(c);
    let claim = text.len() > 0 && text.last() == c && wildcard_matches(head, text.drop_last());
    if head.len() == 0 {
        assert(whole[0] == c);
        assert(whole.skip(1) =~= Seq::<char>::empty());
        if text.len() > 0 {
            assert(text.skip(1).len() == 0 <==> text.drop_last().len() == 0);
            assert(text[0] == text.last() || text.len() > 1);
            assert(wildcard_matches(whole.skip(1), text.skip(1)) <==> text.skip(1).len() == 0);
        }
        assert(wildcard_matches(whole, text) <==> claim);
    } else {
        assert(whole[0] == head[0]);
        assert(whole.skip(1) =~= head.skip(1).push(c));
        if text.len() == 0 {
            if head[0] == '*' {
                lemma_anchored_at_end(head.skip(1), c, text);
            }
            assert(wildcard_matches(whole, text) <==> claim);
        } else {
            let front = text.drop_last();
            let tail = text.skip(1);
            if text.len() >= 2 {
                assert(front.skip(1) =~= tail.drop_last());
                assert(tail.last() == text.last());
                assert(front[0] == text[0]);
            }
            lemma_anchored_at_end(head.skip(1), c, tail);
            if head[0] == '*' {
                lemma_anchored_at_end(head.skip(1), c, text);
                lemma_anchored_at_end(head, c, tail);
            }
            assert(wildcard_matches(whole, text) <==> claim);
        }
    }
}

/// Matching is anchored at the end, for a whole ordinary suffix: a pattern
/// that ends with text free of `*` and `?` matches exactly the texts that
/// end with that suffix and whose part before it the rest of the pattern
/// matches.
pub proof fn lemma_literal_suffix(head: Seq<char>, suffix: Seq<char>, text: Seq<char>)
    requires
        !has_wildcard(suffix),
    ensures
        wildcard_matches(head + suffix, text) <==> (text.len() >= suffix.len() && text.skip(
            text.len() - suffix.len(),
        ) == suffix && wildcard_matches(head, text.take(text.len() - suffix.len()))),
    decreases suffix.len(),
{
    if suffix.len() == 0 {
        assert(head + suffix =~= head);
        assert(text.take(text.len() as int) =~= text);
        assert(text.skip(text.len() as int) =~= suffix);
    } else {
        let c = suffix.last();
        let shorter = suffix.drop_last();
        assert(suffix.contains(c));
        assert forall|d: char| shorter.contains(d) implies suffix.contains(d) by {
            let i = choose|i: int| 0 <= i < shorter.len() && shorter[i] == d;
            assert(suffix[i] == d);
        }
        assert(head + suffix =~= (head + shorter).push(c));
        lemma_anchored_at_end(head + shorter, c, text);
        if text.len() > 0 {
            let front = text.drop_last();
            lemma_literal_suffix(head, shorter, front);
            if text.len() >= suffix.len() {
                let cut = text.len() - suffix.len();
                assert(front.take(cut) =~= text.take(cut));
                assert(front.skip(cut) =~= text.skip(cut).drop_last());
                assert(text.skip(cut).last() == text.last());
                if front.skip(cut) == shorter && text.last() == c {
                    assert(text.skip(cut) =~= text.skip(cut).drop_last().push(text.last()));
                    assert(suffix =~= shorter.push(c));
                }
            }
        }
    }
}

/// Matches `pattern[pi..]` against `text[ti..]` by backtracking: at a `*`
/// every length of a run is tried, the shortest first.
fn wildcard_match_from(pattern: &Vec<char>, pi: usize, text: &Vec<char>, ti: usize) -> (b: bool)
    requires
        pi <= pattern.len(),
        ti <= text.len(),
    ensures
        b == wildcard_matches(pattern@.skip(pi as int), text@.skip(ti as int)),
    decreases pattern.len() - pi, text.len() - ti,
{
    let ghost p = pattern@.skip(pi as int);
    if pi == pattern.len() {
        return ti == text.len();
    }
    assert(p[0] == pattern@[pi as int]);
    assert(p.skip(1) =~= pattern@.skip(pi + 1));
    let c = pattern[pi];
    if c == '*' {
        let mut k: usize = ti;
        loop
            invariant
                pi < pattern.len(),
                ti <= k <= text.len(),
                p == pattern@.skip(pi as int),
                p.skip(1) == pattern@.skip(pi + 1),
                p.len() > 0 && p[0] == '*',
                wildcard_matches(p, text@.skip(ti as int)) == wildcard_matches(
                    p,
                    text@.skip(k as int),
                ),
            decreases text.len() - k,
        {
            assert(k < text.len() ==> text@.skip(k as int).skip(1) =~= text@.skip(k + 1));
            if wildcard_match_from(pattern, pi + 1, text, k) {
                return true;
            }
            if k == text.len() {
                return false;
            }
            k += 1;
        }
    } else if ti < text.len() && (c == '?' || c == text[ti]) {
        assert(text@.skip(ti as int)[0] == text@[ti as int]);
        assert(text@.skip(ti as int).skip(1) =~= text@.skip(ti + 1));
        wildcard_match_from(pattern, pi + 1, text, ti + 1)
    } else {
        false
    }
}

/// Whether the glob-style `pattern` covers the whole of `text`, both given
/// as characters.
pub fn wildcard_match_chars(pattern: &Vec<char>, text: &Vec<char>) -> (b: bool)
    ensures
        b == wildcard_matches(pattern@, text@),
{
    assert(pattern@.skip(0) =~= pattern@ && text@.skip(0) =~= text@);
    wildcard_match_from(pattern, 0, text, 0)
}

/// Whether the glob-style `pattern` covers the whole of `text`.
///
/// The search backtracks: at each `*` it tries every length of a run. On a
/// pattern with many `*` that can take time exponential in the length of the
/// text. Names are short, so this is left as it is.
pub fn wildcard_match(pattern: &str, text: &str) -> (b: bool)
    ensures
        b == wildcard_matches(pattern@, text@),
{
    let p = to_chars(pattern);
    let t = to_chars(text);
    wildcard_match_chars(&p, &t)
}

impl Pattern {
    /// Builds a rule from a raw string: after `regex:` the rest is compiled
    /// as a regular expression; otherwise a string with `*` or `?` is a
    /// wildcard, and any other string matches itself alone.
    ///
    /// Whether an expression compiles is the engine's decision; a refused one
    /// comes back as an error that carries the raw string.
    pub fn from_string(raw: &str) -> (r: Result<Pattern, ParseError>)
        ensures
            parsed_as(raw@, r),
    {
        let chars = to_chars(raw);
        if starts_with_regex_prefix(&chars) {
            let source = from_chars(&chars, 6, chars.len());
            assert(source@ =~= raw@.skip(6));
            match compile_regex(source.as_str()) {
                Ok(re) => Pattern::from_compiled(raw, Ok(re)),
                Err(e) => Pattern::from_compiled(raw, Err(regex_error_text(&e))),
            }
        } else if contains_wildcard(&chars) {
            Ok(Pattern::Wildcard(raw.to_owned()))
        } else {
            Ok(Pattern::Exact(raw.to_owned()))
        }
    }

    /// Turns the engine's answer for the raw string `raw` into a rule or an
    /// error: a compiled expression becomes a rule, a message becomes an
    /// error that carries `raw` and the message.
    pub fn from_compiled(raw: &str, outcome: Result<CompiledRegex, String>) -> (r: Result<
        Pattern,
        ParseError,
    >)
        ensures
            match outcome {
                Ok(re) => r matches Ok(p) && p == Pattern::Regex(re),
                Err(message) => r matches Err(e) && e.pattern@ == raw@ && e.message == message,
            },
    {
        match outcome {
            Ok(re) => Ok(Pattern::Regex(re)),
            Err(message) => Err(ParseError { pattern: raw.to_owned(), message }),
        }
    }

    /// Whether the rule matches `candidate`.
    pub fn matches(&self, candidate: &str) -> (b: bool)
        ensures
            b == pattern_matches(self@, candidate@),
    {
        match self {
            Pattern::Exact(s) => same_text(s.as_str(), candidate),
            Pattern::Wildcard(s) => wildcard_match(s.as_str(), candidate),
            Pattern::Regex(re) => regex_is_match(re, candidate),
        }
    }
}

impl ParseError {
    /// A one-line report of the error: the raw pattern and the message.
    pub fn describe(&self) -> (s: String)
        ensures
            s@ == "invalid pattern '"@ + self.pattern@ + "': "@ + self.message@,
    {
        let mut s = String::new();
        s.append("invalid pattern '");
        s.append(self.pattern.as_str());
        s.append("': ");
        s.append(self.message.as_str());
        s
    }
}

} // verus!
