use tree2::exclude::{parse_exceptions, ExclusionConfig};
use tree2::ignore::load_rules;
use tree2::render::{DirectoryEntry, Metadata, Styles};
use tree2::walk::{Action, Event, Walker};

fn file(parent: &str, name: &str, size: u64) -> DirectoryEntry {
    DirectoryEntry {
        name: name.to_string(),
        path: format!("{}/{}", parent, name),
        metadata: Some(Metadata { is_directory: false, size }),
    }
}

fn dir(parent: &str, name: &str) -> DirectoryEntry {
    DirectoryEntry {
        name: name.to_string(),
        path: format!("{}/{}", parent, name),
        metadata: Some(Metadata { is_directory: true, size: 0 }),
    }
}

fn unknown(parent: &str, name: &str) -> DirectoryEntry {
    DirectoryEntry { name: name.to_string(), path: format!("{}/{}", parent, name), metadata: None }
}

/// A small tree in memory.
fn sample(path: &str) -> Event {
    match path {
        "/r" => Event::Listing(vec![
            file("/r", "b.txt", 1536),
            dir("/r", ".git"),
            file("/r", "c.log", 10),
            dir("/r", "a"),
        ]),
        "/r/a" => Event::Listing(vec![file("/r/a", "z", 0), dir("/r/a", "y"), dir("/r/a", "x")]),
        "/r/a/x" => Event::Listing(vec![]),
        "/r/a/y" => Event::Unreadable,
        "/r/.git" => Event::Listing(vec![file("/r/.git", "HEAD", 23)]),
        _ => Event::Unreadable,
    }
}

fn configuration(manual: &[&str], ignore_texts: &[&str], show_all: bool, exceptions: &[&str]) -> ExclusionConfig {
    let manual: Vec<String> = manual.iter().map(|s| s.to_string()).collect();
    let texts: Vec<String> = ignore_texts.iter().map(|s| s.to_string()).collect();
    let raws: Vec<String> = exceptions.iter().map(|s| s.to_string()).collect();
    let (patterns, _errors) = parse_exceptions(&raws);
    ExclusionConfig::new(&manual, load_rules(&texts, show_all), patterns)
}

struct Walked {
    buffer: String,
    live: String,
    asked: Vec<String>,
}

fn walk(root: &str, config: ExclusionConfig, styles: Styles, use_colors: bool, fs: fn(&str) -> Event) -> Walked {
    let mut walker = Walker::new(config, styles, use_colors);
    let mut live = walker.write_root(root);
    let mut asked = Vec::new();
    let mut action = walker.start(root, "");
    assert!(walker.is_waiting());
    loop {
        match action {
            Action::Done => break,
            Action::List(path) => {
                asked.push(path.clone());
                let step = walker.step(fs(&path));
                live.push_str(&step.live);
                action = step.action;
            }
        }
    }
    assert!(!walker.is_waiting());
    assert!(walker.pending.is_empty());
    Walked { buffer: walker.into_buffer(), live, asked }
}

#[test]
fn the_sample_tree_is_drawn() {
    let walked = walk("/r", configuration(&[], &["*.log\n"], false, &[]), Styles::ansi(), false, sample);
    let expected = "📂 /r/\n\
├── 📁 a/\n\
│   ├── 📁 x/\n\
│   ├── 📁 y/\n\
│   │   └── 🔒 [Permission Denied]\n\
│   └── 📄 z (0.00 B)\n\
└── 📄 b.txt (1.50 KB)\n";
    assert_eq!(walked.buffer, expected);
    assert_eq!(walked.live, expected);
    assert_eq!(walked.asked, vec!["/r", "/r/a", "/r/a/x", "/r/a/y"]);
}

#[test]
fn the_buffer_stays_plain_when_colours_are_on() {
    let plain = walk("/r", configuration(&[], &["*.log\n"], false, &[]), Styles::ansi(), false, sample);
    let styled = walk("/r", configuration(&[], &["*.log\n"], false, &[]), Styles::ansi(), true, sample);
    assert_eq!(styled.buffer, plain.buffer);
    assert_ne!(styled.live, plain.live);
    let y = "\x1b[38;2;255;255;0m";
    let c = "\x1b[38;2;0;255;255m";
    let red = "\x1b[1;97;41m";
    let m = "\x1b[38;2;255;128;255m";
    let o = "\x1b[38;5;214m";
    let r = "\x1b[0m";
    let expected = format!(
        "{y}📂 /r/\n{r}{y}├── 📁 a/\n{r}{y}│   ├── 📁 x/\n{r}{y}│   ├── 📁 y/\n{r}{red}│   │   └── 🔒 [Permission Denied]\n{r}{c}│   └── 📄 z ({red}0.00{r} {o}B{r})\n{c}└── 📄 b.txt ({m}1.50{r} {o}KB{r})\n"
    );
    assert_eq!(styled.live, expected);
}

#[test]
fn rendering_twice_gives_the_same_buffer() {
    let first = walk("/r", configuration(&["b.txt"], &["*.log\n"], false, &["c.log"]), Styles::ansi(), true, sample);
    let second = walk("/r", configuration(&["b.txt"], &["*.log\n"], false, &["c.log"]), Styles::ansi(), true, sample);
    assert_eq!(first.buffer, second.buffer);
    assert_eq!(first.live, second.live);
    assert_eq!(first.asked, second.asked);
    assert_eq!(first.buffer, "📂 /r/\n├── 📁 a/\n│   ├── 📁 x/\n│   ├── 📁 y/\n│   │   └── 🔒 [Permission Denied]\n│   └── 📄 z (0.00 B)\n└── 📄 c.log (10.00 B)\n");
}

#[test]
fn show_all_brings_the_git_directory_back() {
    let hidden = walk("/r", configuration(&[], &[], false, &[]), Styles::ansi(), false, sample);
    assert!(!hidden.buffer.contains(".git"));
    assert!(!hidden.asked.contains(&"/r/.git".to_string()));
    let shown = walk("/r", configuration(&[], &[], true, &[]), Styles::ansi(), false, sample);
    assert_eq!(
        shown.buffer,
        "📂 /r/\n\
├── 📁 .git/\n\
│   └── 📄 HEAD (23.00 B)\n\
├── 📁 a/\n\
│   ├── 📁 x/\n\
│   ├── 📁 y/\n\
│   │   └── 🔒 [Permission Denied]\n\
│   └── 📄 z (0.00 B)\n\
├── 📄 b.txt (1.50 KB)\n\
└── 📄 c.log (10.00 B)\n"
    );
    assert_eq!(shown.asked, vec!["/r", "/r/.git", "/r/a", "/r/a/x", "/r/a/y"]);
}

#[test]
fn an_exception_brings_the_git_directory_back() {
    let walked = walk("/r", configuration(&[], &[], false, &[".git"]), Styles::ansi(), false, sample);
    assert!(walked.buffer.contains("├── 📁 .git/\n│   └── 📄 HEAD (23.00 B)\n"));
}

#[test]
fn an_excluded_directory_is_never_listed() {
    let walked = walk("/r", configuration(&["a"], &[], false, &[]), Styles::ansi(), false, sample);
    assert_eq!(walked.buffer, "📂 /r/\n├── 📄 b.txt (1.50 KB)\n└── 📄 c.log (10.00 B)\n");
    assert_eq!(walked.asked, vec!["/r"]);
}

#[test]
fn an_unreadable_root_gives_the_marker_alone() {
    let walked = walk("/nowhere", configuration(&[], &[], false, &[]), Styles::ansi(), false, sample);
    assert_eq!(walked.buffer, "📂 /nowhere/\n└── 🔒 [Permission Denied]\n");
    assert_eq!(walked.asked, vec!["/nowhere"]);
}

fn two_children(path: &str) -> Event {
    match path {
        "/t" => Event::Listing(vec![dir("/t", "second"), dir("/t", "first"), dir("/t", ".hg")]),
        "/t/first" => Event::Listing(vec![file("/t/first", "inner", 1)]),
        "/t/second" => Event::Listing(vec![file("/t/second", "inner", 1)]),
        _ => Event::Unreadable,
    }
}

#[test]
fn two_children_use_branch_then_terminal_connector() {
    let walked = walk("/t", configuration(&[], &[], false, &[]), Styles::ansi(), false, two_children);
    let lines: Vec<&str> = walked.buffer.lines().collect();
    assert_eq!(
        lines,
        vec![
            "📂 /t/",
            "├── 📁 first/",
            "│   └── 📄 inner (1.00 B)",
            "└── 📁 second/",
            "    └── 📄 inner (1.00 B)",
        ]
    );
}

fn vanishing(path: &str) -> Event {
    match path {
        "/v" => Event::Listing(vec![unknown("/v", "zz_gone"), file("/v", "kept", 5), unknown("/v", "a_gone")]),
        _ => Event::Unreadable,
    }
}

#[test]
fn an_entry_without_metadata_is_skipped_silently() {
    let walked = walk("/v", configuration(&[], &[], false, &[]), Styles::ansi(), true, vanishing);
    assert_eq!(walked.buffer, "📂 /v/\n└── 📄 kept (5.00 B)\n");
    assert_eq!(walked.asked, vec!["/v"]);
}

#[test]
fn a_walker_that_waits_for_nothing_is_done() {
    let mut walker = Walker::new(configuration(&[], &[], false, &[]), Styles::plain(), false);
    assert!(!walker.is_waiting());
    let step = walker.step(Event::Listing(vec![file("/r", "a", 1)]));
    assert!(matches!(step.action, Action::Done));
    assert_eq!(step.live, "");
    assert_eq!(walker.buffer(), "");
}

#[test]
fn a_walk_may_begin_under_a_prefix() {
    let mut walker = Walker::new(configuration(&[], &[], false, &[]), Styles::plain(), false);
    let action = walker.start("/r/a", "│   ");
    assert!(matches!(action, Action::List(p) if p == "/r/a"));
    let step = walker.step(sample("/r/a"));
    assert_eq!(step.live, "│   ├── 📁 x/\n");
    assert!(matches!(step.action, Action::List(p) if p == "/r/a/x"));
    let step = walker.step(sample("/r/a/x"));
    assert_eq!(step.live, "│   ├── 📁 y/\n");
    assert!(matches!(step.action, Action::List(p) if p == "/r/a/y"));
    let step = walker.step(sample("/r/a/y"));
    assert_eq!(step.live, "│   │   └── 🔒 [Permission Denied]\n│   └── 📄 z (0.00 B)\n");
    assert!(matches!(step.action, Action::Done));
    assert_eq!(
        walker.buffer(),
        "│   ├── 📁 x/\n│   ├── 📁 y/\n│   │   └── 🔒 [Permission Denied]\n│   └── 📄 z (0.00 B)\n"
    );
}

fn deep(path: &str) -> Event {
    let depth = path.matches('/').count();
    if depth < 40 {
        Event::Listing(vec![dir(path, "d"), file(path, "f", 1024)])
    } else {
        Event::Listing(vec![])
    }
}

#[test]
fn a_deep_tree_is_walked_to_its_end() {
    let walked = walk("/d", configuration(&[], &[], false, &[]), Styles::plain(), false, deep);
    assert_eq!(walked.asked.len(), 40);
    assert_eq!(walked.buffer.lines().count(), 1 + 39 * 2);
    assert!(walked.buffer.ends_with("└── 📄 f (1.00 KB)\n"));
    let third = walked.buffer.lines().nth(2).unwrap();
    assert_eq!(third, "│   ├── 📁 d/");
}

#[test]
fn a_refused_exception_leaves_the_tree_as_it_would_be_without_it() {
    let raws = ["regex:[", "c.log", "regex:^\\.git$"];
    let texts: Vec<String> = raws.iter().map(|s| s.to_string()).collect();
    let (_patterns, errors) = parse_exceptions(&texts);
    assert_eq!(errors.len(), 1);
    assert_eq!(errors[0].pattern, "regex:[");
    let with_it = walk("/r", configuration(&[], &["*.log\n"], false, &raws), Styles::ansi(), true, sample);
    let without_it = walk("/r", configuration(&[], &["*.log\n"], false, &raws[1..]), Styles::ansi(), true, sample);
    assert_eq!(with_it.buffer, without_it.buffer);
    assert_eq!(with_it.live, without_it.live);
    assert_eq!(with_it.asked, without_it.asked);
    assert!(with_it.buffer.contains("└── 📄 c.log (10.00 B)\n"));
    assert!(with_it.buffer.contains("├── 📁 .git/\n"));
    assert_eq!(with_it.asked, vec!["/r", "/r/.git", "/r/a", "/r/a/x", "/r/a/y"]);
}
