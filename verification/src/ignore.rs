//! Rule sets: sets of plain strings, filled from the text of ignore files
//! and from the built-in list of names that are left out by default.

use vstd::prelude::*;
use crate::text::{from_chars, is_space, is_space_char, to_chars};

verus! {

/// A set of strings. Adding a string that is there already changes nothing,
/// and the order in which strings were added means nothing.
#[derive(Debug)]
pub struct RuleSet {
    items: Vec<String>,
}

impl View for RuleSet {
    type V = Set<Seq<char>>;

    closed spec fn view(&self) -> Set<Seq<char>> {
        self.items.deep_view().to_set()
    }
}

/// The end of the line that begins at `from`: the place of the next line
/// feed, or the end of the text.
pub open spec fn line_end(text: Seq<char>, from: int) -> int
    decreases text.len() - from,
{
    if from >= text.len() || text[from] == '\n' {
        from
    } else {
        line_end(text, from + 1)
    }
}

/// The lines of `text` from the place `from` on. A line ends at a line feed
/// or at the end of the text; a line feed at the very end begins no line.
pub open spec fn lines_from(text: Seq<char>, from: int) -> Seq<Seq<char>>
    decreases text.len() + 1 - from,
    via lines_from_terminates
{
    if from < 0 || from >= text.len() {
        Seq::empty()
    } else {
        seq![text.subrange(from, line_end(text, from))] + lines_from(
            text,
            line_end(text, from) + 1,
        )
    }
}

#[via_fn]
proof fn lines_from_terminates(text: Seq<char>, from: int) {
    if 0 <= from < text.len() {
        lemma_line_end_bounds(text, from);
    }
}

/// A line ends at or after its start, within the text, and holds no line
/// feed; at its end stands a line feed or nothing.
pub proof fn lemma_line_end_bounds(text: Seq<char>, from: int)
    requires
        0 <= from <= text.len(),
    ensures
        from <= line_end(text, from) <= text.len(),
        forall|i: int| from <= i < line_end(text, from) ==> text[i] != '\n',
        line_end(text, from) < text.len() ==> text[line_end(text, from)] == '\n',
    decreases text.len() - from,
{
    if from < text.len() && text[from] != '\n' {
        lemma_line_end_bounds(text, from + 1);
    }
}

/// The lines of `text`.
pub open spec fn lines(text: Seq<char>) -> Seq<Seq<char>> {
    lines_from(text, 0)
}

/// `s` without the white space at its start.
pub open spec fn trim_start(s: Seq<char>) -> Seq<char>
    decreases s.len(),
{
    if s.len() > 0 && is_space(s[0]) {
        trim_start(s.skip(1))
    } else {
        s
    }
}

/// `s` without the white space at its end.
pub open spec fn trim_end(s: Seq<char>) -> Seq<char>
    decreases s.len(),
{
    if s.len() > 0 && is_space(s.last()) {
        trim_end(s.drop_last())
    } else {
        s
    }
}

/// `s` without the white space at its start and at its end.
pub open spec fn trim(s: Seq<char>) -> Seq<char> {
    trim_end(trim_start(s))
}

/// `s` without the run of `/` at its end.
pub open spec fn strip_trailing_slashes(s: Seq<char>) -> Seq<char>
    decreases s.len(),
{
    if s.len() > 0 && s.last() == '/' {
        strip_trailing_slashes(s.drop_last())
    } else {
        s
    }
}

/// The rule that one line of an ignore file gives: none for a blank line
/// and for a comment, which begins with `#`; else the trimmed line without
/// `/` at its end.
pub open spec fn clean_line(line: Seq<char>) -> Option<Seq<char>> {
    let t = trim(line);
    if t.len() == 0 || t[0] == '#' {
        None
    } else {
        Some(strip_trailing_slashes(t))
    }
}

/// The rules that the lines give, each once.
pub open spec fn rules_of_lines(lines: Seq<Seq<char>>) -> Set<Seq<char>> {
    Set::new(|r: Seq<char>| exists|i: int| 0 <= i < lines.len() && clean_line(#[trigger] lines[i]) == Some(r))
}

/// The rules that the text of an ignore file gives.
pub open spec fn rules_in(text: Seq<char>) -> Set<Seq<char>> {
    rules_of_lines(lines(text))
}

/// The names of the ignore files that are looked for where the caller names
/// none.
pub open spec fn known_ignore_files() -> Seq<Seq<char>> {
    seq![
        ".gitignore"@,
        ".dockerignore"@,
        ".npmignore"@,
        ".eslintignore"@,
        ".prettierignore"@,
        ".hgignore"@,
        ".terraformignore"@,
        ".helmignore"@,
        ".gcloudignore"@,
        ".cfignore"@,
        ".slugignore"@,
        ".pt"@,
    ]
}

/// The names that are left out whatever the ignore files say: what version
/// control and the operating system leave behind.
pub open spec fn default_excludes() -> Seq<Seq<char>> {
    seq![
        ".git"@,
        ".svn"@,
        ".hg"@,
        ".bzr"@,
        "_darcs"@,
        "CVS"@,
        ".DS_Store"@,
        "Thumbs.db"@,
        "desktop.ini"@,
    ]
}

/// The rule set that the texts of the ignore files give, with the built-in
/// names unless they are suppressed.
pub open spec fn loaded_rules(contents: Seq<Seq<char>>, suppress_defaults: bool) -> Set<Seq<char>> {
    Set::new(
        |r: Seq<char>|
            (exists|i: int| 0 <= i < contents.len() && rules_in(#[trigger] contents[i]).contains(r))
                || (!suppress_defaults && default_excludes().contains(r)),
    )
}

impl RuleSet {
    #[verifier::type_invariant]
    spec fn no_rule_twice(&self) -> bool {
        self.items.deep_view().no_duplicates()
    }

    /// The strings of the set, each once, in the order in which they came.
    pub closed spec fn listed(&self) -> Seq<Seq<char>> {
        self.items.deep_view()
    }

    /// The set holds what is listed, and nothing is listed twice.
    pub proof fn lemma_listed(&self)
        ensures
            self@ == self.listed().to_set(),
    {
    }

    /// The string at place `i` of the list.
    pub fn rule_at(&self, i: usize) -> (rule: &String)
        requires
            i < self.listed().len(),
        ensures
            rule@ == self.listed()[i as int],
    {
        &self.items[i]
    }

    /// The empty set.
    pub fn new() -> (rules: RuleSet)
        ensures
            rules@ == Set::<Seq<char>>::empty(),
    {
        let rules = RuleSet { items: Vec::new() };
        assert(rules.items.deep_view() =~= Seq::<Seq<char>>::empty());
        assert(rules@ =~= Set::<Seq<char>>::empty());
        rules
    }

    /// Whether `name` is in the set, letter for letter.
    pub fn contains(&self, name: &str) -> (b: bool)
        ensures
            b == self@.contains(name@),
    {
        let wanted = name.to_owned();
        let mut i: usize = 0;
        while i < self.items.len()
            invariant
                i <= self.items.len(),
                wanted@ == name@,
                forall|j: int| 0 <= j < i ==> self.items.deep_view()[j] != name@,
            decreases self.items.len() - i,
        {
            if self.items[i] == wanted {
                assert(self.items.deep_view()[i as int] == name@);
                return true;
            }
            i += 1;
        }
        false
    }

    /// Adds `rule` to the set.
    pub fn insert(&mut self, rule: String)
        ensures
            final(self)@ == old(self)@.insert(rule@),
    {
        proof {
            use_type_invariant(&*self);
        }
        if !self.contains(rule.as_str()) {
            let ghost before = self.items.deep_view();
            let mut items: Vec<String> = Vec::new();
            core::mem::swap(&mut self.items, &mut items);
            items.push(rule);
            assert(items.deep_view() =~= before.push(rule@));
            core::mem::swap(&mut self.items, &mut items);
            proof {
                lemma_to_set_push(before, rule@);
            }
        } else {
            assert(self@ =~= old(self)@.insert(rule@));
        }
    }

    /// How many strings the set holds.
    pub fn len(&self) -> (n: usize)
        ensures
            n == self@.len(),
            n == self.listed().len(),
            self@.finite(),
    {
        proof {
            use_type_invariant(self);
            self.items.deep_view().unique_seq_to_set();
        }
        self.items.len()
    }
}

/// The rules of one more line join those of the lines before it.
pub proof fn lemma_rules_of_one_more_line(done: Seq<Seq<char>>, line: Seq<char>)
    ensures
        rules_of_lines(done.push(line)) == match clean_line(line) {
            Some(r) => rules_of_lines(done).insert(r),
            None => rules_of_lines(done),
        },
{
    let more = done.push(line);
    let expected = match clean_line(line) {
        Some(r) => rules_of_lines(done).insert(r),
        None => rules_of_lines(done),
    };
    assert forall|r: Seq<char>| rules_of_lines(more).contains(r) <==> expected.contains(r) by {
        if rules_of_lines(more).contains(r) {
            let i = choose|i: int| 0 <= i < more.len() && clean_line(#[trigger] more[i]) == Some(r);
            if i < done.len() {
                assert(clean_line(done[i]) == Some(r));
            }
        }
        if rules_of_lines(done).contains(r) {
            let i = choose|i: int| 0 <= i < done.len() && clean_line(#[trigger] done[i]) == Some(r);
            assert(clean_line(more[i]) == Some(r));
        }
        if clean_line(line) == Some(r) {
            assert(clean_line(more[done.len() as int]) == Some(r));
        }
    }
    assert(rules_of_lines(more) =~= expected);
}

/// The rule that the line `chars[start..end]` gives, if it gives one.
fn clean_range(chars: &Vec<char>, start: usize, end: usize) -> (r: Option<String>)
    requires
        start <= end <= chars.len(),
    ensures
        match clean_line(chars@.subrange(start as int, end as int)) {
            Some(rule) => r matches Some(s) && s@ == rule,
            None => r is None,
        },
{
    let ghost line = chars@.subrange(start as int, end as int);
    let mut a: usize = start;
    while a < end && is_space_char(chars[a])
        invariant
            start <= a <= end <= chars.len(),
            trim_start(line) == trim_start(chars@.subrange(a as int, end as int)),
        decreases end - a,
    {
        assert(chars@.subrange(a as int, end as int).skip(1) =~= chars@.subrange(
            a + 1,
            end as int,
        ));
        a += 1;
    }
    let mut b: usize = end;
    while b > a && is_space_char(chars[b - 1])
        invariant
            a <= b <= end <= chars.len(),
            trim(line) == trim_end(chars@.subrange(a as int, b as int)),
        decreases b - a,
    {
        assert(chars@.subrange(a as int, b as int).drop_last() =~= chars@.subrange(
            a as int,
            b - 1,
        ));
        b -= 1;
    }
    assert(trim(line) == chars@.subrange(a as int, b as int));
    if a == b || chars[a] == '#' {
        return None;
    }
    let mut c: usize = b;
    while c > a && chars[c - 1] == '/'
        invariant
            a <= c <= b <= chars.len(),
            strip_trailing_slashes(trim(line)) == strip_trailing_slashes(
                chars@.subrange(a as int, c as int),
            ),
        decreases c - a,
    {
        assert(chars@.subrange(a as int, c as int).drop_last() =~= chars@.subrange(
            a as int,
            c - 1,
        ));
        c -= 1;
    }
    Some(from_chars(chars, a, c))
}

/// The rule that one line of an ignore file gives: none for a blank line
/// and for a comment; else the trimmed line without `/` at its end.
pub fn rule_of_line(line: &str) -> (r: Option<String>)
    ensures
        match clean_line(line@) {
            Some(rule) => r matches Some(s) && s@ == rule,
            None => r is None,
        },
{
    let chars = to_chars(line);
    assert(chars@.subrange(0, chars@.len() as int) =~= line@);
    clean_range(&chars, 0, chars.len())
}

impl RuleSet {
    /// Adds the rules that the text of an ignore file gives: one for each
    /// line that is neither blank nor a comment.
    pub fn add_text(&mut self, text: &str)
        ensures
            final(self)@ == old(self)@.union(rules_in(text@)),
    {
        let chars = to_chars(text);
        let n = chars.len();
        let mut start: usize = 0;
        let ghost mut done: Seq<Seq<char>> = Seq::empty();
        assert(self@ =~= old(self)@.union(rules_of_lines(done)));
        assert(done + lines_from(text@, 0) =~= lines(text@));
        while start < n
            invariant
                start <= n,
                n == chars.len(),
                chars@ == text@,
                lines(text@) == done + lines_from(text@, start as int),
                self@ == old(self)@.union(rules_of_lines(done)),
            decreases n - start,
        {
            let mut end: usize = start;
            while end < n && chars[end] != '\n'
                invariant
                    start <= end <= n,
                    n == chars.len(),
                    chars@ == text@,
                    line_end(text@, start as int) == line_end(text@, end as int),
                decreases n - end,
            {
                end += 1;
            }
            let ghost line = text@.subrange(start as int, end as int);
            let ghost before = self@;
            match clean_range(&chars, start, end) {
                Some(rule) => {
                    self.insert(rule);
                },
                None => {},
            }
            proof {
                lemma_rules_of_one_more_line(done, line);
                assert(self@ =~= old(self)@.union(rules_of_lines(done.push(line))));
                assert(done.push(line) + lines_from(text@, end + 1) =~= done + lines_from(
                    text@,
                    start as int,
                ));
                done = done.push(line);
            }
            if end == n {
                start = n;
            } else {
                start = end + 1;
            }
        }
        assert(done + lines_from(text@, n as int) =~= done);
    }

    /// The set of the given names.
    pub fn from_names(names: &Vec<String>) -> (rules: RuleSet)
        ensures
            rules@ == names.deep_view().to_set(),
    {
        let mut rules = RuleSet::new();
        let mut i: usize = 0;
        while i < names.len()
            invariant
                i <= names.len(),
                rules@ == names.deep_view().take(i as int).to_set(),
            decreases names.len() - i,
        {
            rules.insert(names[i].clone());
            proof {
                let seen = names.deep_view().take(i as int);
                let more = names.deep_view().take(i + 1);
                assert(more =~= seen.push(names[i as int]@));
                lemma_to_set_push(seen, names[i as int]@);
            }
            i += 1;
        }
        assert(names.deep_view().take(names.len() as int) =~= names.deep_view());
        rules
    }
}

/// The set of a sequence with one more item is the set with that item.
pub proof fn lemma_to_set_push(s: Seq<Seq<char>>, x: Seq<char>)
    ensures
        s.push(x).to_set() == s.to_set().insert(x),
{
    let more = s.push(x);
    assert forall|r: Seq<char>| more.contains(r) <==> (s.contains(r) || r == x) by {
        if more.contains(r) {
            let i = choose|i: int| 0 <= i < more.len() && more[i] == r;
            if i < s.len() {
                assert(s[i] == r);
            }
        }
        if s.contains(r) {
            let i = choose|i: int| 0 <= i < s.len() && s[i] == r;
            assert(more[i] == r);
        }
        if r == x {
            assert(more[s.len() as int] == r);
        }
    }
    assert(more.to_set() =~= s.to_set().insert(x));
}

/// The names of the ignore files that are looked for where the caller names
/// none.
pub fn known_ignore_file_names() -> (names: Vec<String>)
    ensures
        names.deep_view() == known_ignore_files(),
{
    let mut names: Vec<String> = Vec::new();
    names.push(".gitignore".to_owned());
    names.push(".dockerignore".to_owned());
    names.push(".npmignore".to_owned());
    names.push(".eslintignore".to_owned());
    names.push(".prettierignore".to_owned());
    names.push(".hgignore".to_owned());
    names.push(".terraformignore".to_owned());
    names.push(".helmignore".to_owned());
    names.push(".gcloudignore".to_owned());
    names.push(".cfignore".to_owned());
    names.push(".slugignore".to_owned());
    names.push(".pt".to_owned());
    assert(names.deep_view() =~= known_ignore_files());
    names
}

/// The names that are left out by default.
pub fn default_exclude_names() -> (names: Vec<String>)
    ensures
        names.deep_view() == default_excludes(),
{
    let mut names: Vec<String> = Vec::new();
    names.push(".git".to_owned());
    names.push(".svn".to_owned());
    names.push(".hg".to_owned());
    names.push(".bzr".to_owned());
    names.push("_darcs".to_owned());
    names.push("CVS".to_owned());
    names.push(".DS_Store".to_owned());
    names.push("Thumbs.db".to_owned());
    names.push("desktop.ini".to_owned());
    assert(names.deep_view() =~= default_excludes());
    names
}

/// The names of the ignore files to read in a directory: those that the
/// caller asks for, and no others; or, where the caller names none, every
/// known one.
pub fn ignore_files_to_consult(requested: &Option<Vec<String>>) -> (names: Vec<String>)
    ensures
        names.deep_view() == match requested {
            Some(list) => list.deep_view(),
            None => known_ignore_files(),
        },
{
    match requested {
        Some(list) => {
            let mut names: Vec<String> = Vec::new();
            let mut i: usize = 0;
            while i < list.len()
                invariant
                    i <= list.len(),
                    names.deep_view() == list.deep_view().take(i as int),
                decreases list.len() - i,
            {
                let ghost before = names.deep_view();
                names.push(list[i].clone());
                assert(names.deep_view() =~= before.push(list[i as int]@));
                assert(list.deep_view().take(i + 1) =~= before.push(list[i as int]@));
                i += 1;
            }
            assert(list.deep_view().take(list.len() as int) =~= list.deep_view());
            names
        },
        None => known_ignore_file_names(),
    }
}

/// Builds the rule set of a directory from the texts of its ignore files,
/// one text for each file that was there and could be read, and adds the
/// built-in names unless `suppress_defaults` is set.
pub fn load_rules(contents: &Vec<String>, suppress_defaults: bool) -> (rules: RuleSet)
    ensures
        rules@ == loaded_rules(contents.deep_view(), suppress_defaults),
{
    let mut rules = RuleSet::new();
    let mut i: usize = 0;
    while i < contents.len()
        invariant
            i <= contents.len(),
            rules@ == loaded_rules(contents.deep_view().take(i as int), true),
        decreases contents.len() - i,
    {
        rules.add_text(contents[i].as_str());
        proof {
            let seen = contents.deep_view().take(i as int);
            let more = contents.deep_view().take(i + 1);
            assert(more =~= seen.push(contents[i as int]@));
            assert forall|r: Seq<char>| loaded_rules(more, true).contains(r) <==> (loaded_rules(
                seen,
                true,
            ).contains(r) || rules_in(contents[i as int]@).contains(r)) by {
                if loaded_rules(more, true).contains(r) {
                    let j = choose|j: int|
                        0 <= j < more.len() && rules_in(#[trigger] more[j]).contains(r);
                    if j < seen.len() {
                        assert(rules_in(seen[j]).contains(r));
                    }
                }
                if loaded_rules(seen, true).contains(r) {
                    let j = choose|j: int|
                        0 <= j < seen.len() && rules_in(#[trigger] seen[j]).contains(r);
                    assert(rules_in(more[j]).contains(r));
                }
                if rules_in(contents[i as int]@).contains(r) {
                    assert(rules_in(more[i as int]).contains(r));
                }
            }
            assert(rules@ =~= loaded_rules(more, true));
        }
        i += 1;
    }
    assert(contents.deep_view().take(contents.len() as int) =~= contents.deep_view());
    if !suppress_defaults {
        let defaults = default_exclude_names();
        let ghost loaded = rules@;
        let mut k: usize = 0;
        while k < defaults.len()
            invariant
                k <= defaults.len(),
                defaults.deep_view() == default_excludes(),
                rules@ == loaded.union(default_excludes().take(k as int).to_set()),
            decreases defaults.len() - k,
        {
            rules.insert(defaults[k].clone());
            proof {
                let seen = default_excludes().take(k as int);
                assert(default_excludes().take(k + 1) =~= seen.push(defaults[k as int]@));
                lemma_to_set_push(seen, defaults[k as int]@);
                assert(rules@ =~= loaded.union(default_excludes().take(k + 1).to_set()));
            }
            k += 1;
        }
        assert(default_excludes().take(defaults.len() as int) =~= default_excludes());
        assert(rules@ =~= loaded_rules(contents.deep_view(), false));
    } else {
        assert(rules@ =~= loaded_rules(contents.deep_view(), true));
    }
    rules
}

} // verus!
