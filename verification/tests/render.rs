use tree2::exclude::ExclusionConfig;
use tree2::ignore::{load_rules, RuleSet};
use tree2::render::{
    child_prefix, connector_text, plan_level, render_denied, render_entry, render_root,
    visible_entries, DirectoryEntry, Metadata, Styles,
};

fn file(name: &str, size: u64) -> DirectoryEntry {
    DirectoryEntry {
        name: name.to_string(),
        path: format!("/r/{}", name),
        metadata: Some(Metadata { is_directory: false, size }),
    }
}

fn dir(name: &str) -> DirectoryEntry {
    DirectoryEntry {
        name: name.to_string(),
        path: format!("/r/{}", name),
        metadata: Some(Metadata { is_directory: true, size: 4096 }),
    }
}

fn unknown(name: &str) -> DirectoryEntry {
    DirectoryEntry { name: name.to_string(), path: format!("/r/{}", name), metadata: None }
}

fn config(manual: &[&str], rules: &[&str]) -> ExclusionConfig {
    let manual: Vec<String> = manual.iter().map(|s| s.to_string()).collect();
    let rules: Vec<String> = rules.iter().map(|s| s.to_string()).collect();
    ExclusionConfig::new(&manual, RuleSet::from_names(&rules), Vec::new())
}

fn names(entries: &[DirectoryEntry]) -> Vec<String> {
    entries.iter().map(|e| e.name.clone()).collect()
}

#[test]
fn connectors_and_continuations() {
    assert_eq!(connector_text(false), "├── ");
    assert_eq!(connector_text(true), "└── ");
    assert_eq!(child_prefix("", false), "│   ");
    assert_eq!(child_prefix("", true), "    ");
    assert_eq!(child_prefix("│   ", true), "│       ");
    assert_eq!(child_prefix("    ", false), "    │   ");
}

#[test]
fn root_line_plain_and_styled() {
    let styles = Styles::ansi();
    let plain = render_root("/home/me", &styles, false);
    assert_eq!(plain.plain, "📂 /home/me/\n");
    assert_eq!(plain.live, "📂 /home/me/\n");
    let styled = render_root("/home/me", &styles, true);
    assert_eq!(styled.plain, "📂 /home/me/\n");
    assert_eq!(styled.live, "\x1b[38;2;255;255;0m📂 /home/me/\n\x1b[0m");
}

#[test]
fn denied_line_plain_and_styled() {
    let styles = Styles::ansi();
    let plain = render_denied("│   ", &styles, false);
    assert_eq!(plain.plain, "│   └── 🔒 [Permission Denied]\n");
    assert_eq!(plain.live, plain.plain);
    let styled = render_denied("│   ", &styles, true);
    assert_eq!(styled.plain, "│   └── 🔒 [Permission Denied]\n");
    assert_eq!(styled.live, "\x1b[1;97;41m│   └── 🔒 [Permission Denied]\n\x1b[0m");
}

#[test]
fn folder_line_plain_and_styled() {
    let styles = Styles::ansi();
    let line = render_entry("│   ", false, &dir("src"), &styles, false);
    assert_eq!(line.plain, "│   ├── 📁 src/\n");
    assert_eq!(line.live, "│   ├── 📁 src/\n");
    let line = render_entry("", true, &dir("src"), &styles, true);
    assert_eq!(line.plain, "└── 📁 src/\n");
    assert_eq!(line.live, "\x1b[38;2;255;255;0m└── 📁 src/\n\x1b[0m");
}

#[test]
fn file_line_plain_and_styled() {
    let styles = Styles::ansi();
    let line = render_entry("    ", true, &file("a.txt", 1536), &styles, false);
    assert_eq!(line.plain, "    └── 📄 a.txt (1.50 KB)\n");
    assert_eq!(line.live, "    └── 📄 a.txt (1.50 KB)\n");
    let line = render_entry("", false, &file("a.txt", 1536), &styles, true);
    assert_eq!(line.plain, "├── 📄 a.txt (1.50 KB)\n");
    assert_eq!(
        line.live,
        "\x1b[38;2;0;255;255m├── 📄 a.txt (\x1b[38;2;255;128;255m1.50\x1b[0m \x1b[38;5;214mKB\x1b[0m)\n"
    );
}

#[test]
fn an_empty_file_is_flagged_in_colour_only() {
    let styles = Styles::ansi();
    let line = render_entry("", true, &file("empty", 0), &styles, true);
    assert_eq!(line.plain, "└── 📄 empty (0.00 B)\n");
    assert_eq!(
        line.live,
        "\x1b[38;2;0;255;255m└── 📄 empty (\x1b[1;97;41m0.00\x1b[0m \x1b[38;5;214mB\x1b[0m)\n"
    );
    let one = render_entry("", true, &file("one", 1), &styles, true);
    assert_eq!(
        one.live,
        "\x1b[38;2;0;255;255m└── 📄 one (\x1b[38;2;255;128;255m1.00\x1b[0m \x1b[38;5;214mB\x1b[0m)\n"
    );
}

#[test]
fn plain_styles_add_nothing() {
    let styles = Styles::plain();
    let line = render_entry("", false, &file("a", 2048), &styles, true);
    assert_eq!(line.live, line.plain);
    let line = render_entry("", false, &dir("d"), &styles, true);
    assert_eq!(line.live, line.plain);
    assert_eq!(render_denied("", &styles, true).live, "└── 🔒 [Permission Denied]\n");
    assert_eq!(render_root("/r", &styles, true).live, "📂 /r/\n");
}

#[test]
fn an_entry_without_metadata_has_no_line() {
    let styles = Styles::ansi();
    let line = render_entry("", false, &unknown("gone"), &styles, true);
    assert_eq!(line.plain, "");
    assert_eq!(line.live, "");
}

#[test]
fn entries_are_sorted_by_code_point() {
    let listing = vec![file("b", 1), file("a", 1), file("B", 1), file("_x", 1), file("é", 1), file("ab", 1), file("10", 1), file("9", 1), file("", 1)];
    let shown = visible_entries(listing, &config(&[], &[]));
    let mut expected = vec!["b", "a", "B", "_x", "é", "ab", "10", "9", ""];
    expected.sort();
    assert_eq!(names(&shown), expected);
    assert_eq!(names(&shown), vec!["", "10", "9", "B", "_x", "a", "ab", "b", "é"]);
}

#[test]
fn sorting_agrees_with_the_order_of_strings() {
    let mut pool: Vec<String> = Vec::new();
    let alphabet = ['a', 'b', 'A', 'Z', '0', '~', 'é', '日', '\u{10000}', '\u{ffff}', ' ', '.'];
    let mut x: u64 = 12345;
    for _ in 0..300 {
        let mut s = String::new();
        x = x.wrapping_mul(6364136223846793005).wrapping_add(1442695040888963407);
        let len = (x >> 60) as usize % 5;
        for k in 0..len {
            s.push(alphabet[((x >> (8 * k)) as usize) % alphabet.len()]);
        }
        pool.push(s);
    }
    let listing: Vec<DirectoryEntry> = pool.iter().map(|n| file(n, 1)).collect();
    let shown = visible_entries(listing, &config(&[], &[]));
    let mut expected = pool.clone();
    expected.sort();
    assert_eq!(names(&shown), expected);
}

#[test]
fn entries_of_one_name_keep_their_order() {
    let listing = vec![file("same", 2), file("a", 1), file("same", 1), file("same", 3)];
    let shown = visible_entries(listing, &config(&[], &[]));
    let sizes: Vec<u64> = shown.iter().map(|e| e.metadata.unwrap().size).collect();
    assert_eq!(names(&shown), vec!["a", "same", "same", "same"]);
    assert_eq!(sizes, vec![1, 2, 1, 3]);
}

#[test]
fn excluded_entries_do_not_count_for_the_last_connector() {
    let listing = vec![file("a.txt", 1), dir("zzz"), file("m.log", 1), dir(".git")];
    let level = plan_level(listing, &config(&[".git", "zzz"], &["*.log"]), "│   ");
    assert_eq!(level.len(), 1);
    assert_eq!(level[0].entry.name, "a.txt");
    assert_eq!(level[0].prefix, "│   ");
    assert!(level[0].last);
}

#[test]
fn two_visible_children_get_branch_then_terminal() {
    let listing = vec![dir("two"), dir("one"), dir("skipped")];
    let level = plan_level(listing, &config(&["skipped"], &[]), "");
    assert_eq!(level.len(), 2);
    assert_eq!(level[0].entry.name, "one");
    assert!(!level[0].last);
    assert_eq!(level[1].entry.name, "two");
    assert!(level[1].last);
    let styles = Styles::plain();
    let first = render_entry(&level[0].prefix, level[0].last, &level[0].entry, &styles, false);
    let second = render_entry(&level[1].prefix, level[1].last, &level[1].entry, &styles, false);
    assert!(first.plain.starts_with("├── "));
    assert!(second.plain.starts_with("└── "));
    assert!(child_prefix(&level[0].prefix, level[0].last).contains('│'));
    assert!(!child_prefix(&level[1].prefix, level[1].last).contains('│'));
}

#[test]
fn an_empty_listing_has_no_rows() {
    assert!(plan_level(Vec::new(), &config(&[], &[]), "").is_empty());
    assert!(plan_level(vec![dir(".git")], &ExclusionConfig::new(&Vec::new(), load_rules(&Vec::new(), false), Vec::new()), "").is_empty());
}

#[test]
fn an_entry_without_metadata_does_not_count_for_the_last_connector() {
    let listing = vec![unknown("zz_gone"), dir("b"), file("a", 1), unknown("0_gone")];
    let level = plan_level(listing, &config(&[], &[]), "");
    assert_eq!(level.len(), 2);
    assert_eq!(level[0].entry.name, "a");
    assert!(!level[0].last);
    assert_eq!(level[1].entry.name, "b");
    assert!(level[1].last);
    let shown = visible_entries(vec![unknown("only")], &config(&[], &[]));
    assert!(shown.is_empty());
}
