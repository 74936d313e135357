//! The lines of the tree: what an entry looks like, plain and styled, and
//! which entries of a directory are shown, in which order.

use vstd::prelude::*;
use crate::exclude::{
    excepted, ignored, lemma_defaults_are_excluded, lemma_suppressed_defaults_are_shown,
    ConfigModel, ExclusionConfig,
};
use crate::ignore::{default_excludes, loaded_rules, rules_in};
use crate::pattern::PatternModel;
use crate::size::{format_hundredths, hundredths, scale_size, two_decimals, unit_of, Unit};
use crate::text::{lex_le, name_le, to_chars};

verus! {

/// What the file system knows of an entry.
#[derive(Clone, Copy, Debug, PartialEq, Eq, Structural)]
pub struct Metadata {
    /// Whether the entry is a directory.
    pub is_directory: bool,
    /// The size in bytes; it means something for files only.
    pub size: u64,
}

/// One child of a directory, as the file system hands it out.
#[derive(Debug)]
pub struct DirectoryEntry {
    /// The entry's name within its directory.
    pub name: String,
    /// The entry's absolute path.
    pub path: String,
    /// What could be read of the entry; `None` where nothing could.
    pub metadata: Option<Metadata>,
}

/// A directory entry as plain values.
pub struct EntryModel {
    pub name: Seq<char>,
    pub path: Seq<char>,
    pub metadata: Option<Metadata>,
}

impl View for DirectoryEntry {
    type V = EntryModel;

    open spec fn view(&self) -> EntryModel {
        EntryModel { name: self.name@, path: self.path@, metadata: self.metadata }
    }
}

impl EntryModel {
    /// Whether the entry is known to be a directory.
    pub open spec fn is_directory(self) -> bool {
        self.metadata matches Some(m) && m.is_directory
    }
}

/// The entries of a list, each as plain values.
pub open spec fn entries_view(entries: Seq<DirectoryEntry>) -> Seq<EntryModel> {
    entries.map_values(|e: DirectoryEntry| e@)
}

/// The escape sequences that style the live output, one for each role.
#[derive(Debug)]
pub struct Styles {
    pub folder: String,
    pub file: String,
    pub size_zero: String,
    pub size_nonzero: String,
    pub unit: String,
    pub error: String,
    pub reset: String,
}

/// The styles as plain text.
pub struct StylesModel {
    pub folder: Seq<char>,
    pub file: Seq<char>,
    pub size_zero: Seq<char>,
    pub size_nonzero: Seq<char>,
    pub unit: Seq<char>,
    pub error: Seq<char>,
    pub reset: Seq<char>,
}

impl View for Styles {
    type V = StylesModel;

    open spec fn view(&self) -> StylesModel {
        StylesModel {
            folder: self.folder@,
            file: self.file@,
            size_zero: self.size_zero@,
            size_nonzero: self.size_nonzero@,
            unit: self.unit@,
            error: self.error@,
            reset: self.reset@,
        }
    }
}

impl StylesModel {
    /// The 24-bit ANSI colours: folders yellow, files cyan, an empty size
    /// white on red, other sizes light magenta, units orange, errors white
    /// on red.
    pub open spec fn ansi() -> StylesModel {
        StylesModel {
            folder: "\x1b[38;2;255;255;0m"@,
            file: "\x1b[38;2;0;255;255m"@,
            size_zero: "\x1b[1;97;41m"@,
            size_nonzero: "\x1b[38;2;255;128;255m"@,
            unit: "\x1b[38;5;214m"@,
            error: "\x1b[1;97;41m"@,
            reset: "\x1b[0m"@,
        }
    }

    /// No styling at all: every role is the empty text.
    pub open spec fn plain() -> StylesModel {
        StylesModel {
            folder: Seq::empty(),
            file: Seq::empty(),
            size_zero: Seq::empty(),
            size_nonzero: Seq::empty(),
            unit: Seq::empty(),
            error: Seq::empty(),
            reset: Seq::empty(),
        }
    }
}

impl Styles {
    /// The 24-bit ANSI colours.
    pub fn ansi() -> (styles: Styles)
        ensures
            styles@ == StylesModel::ansi(),
    {
        Styles {
            folder: "\x1b[38;2;255;255;0m".to_owned(),
            file: "\x1b[38;2;0;255;255m".to_owned(),
            size_zero: "\x1b[1;97;41m".to_owned(),
            size_nonzero: "\x1b[38;2;255;128;255m".to_owned(),
            unit: "\x1b[38;5;214m".to_owned(),
            error: "\x1b[1;97;41m".to_owned(),
            reset: "\x1b[0m".to_owned(),
        }
    }

    /// No styling at all.
    pub fn plain() -> (styles: Styles)
        ensures
            styles@ == StylesModel::plain(),
    {
        Styles {
            folder: String::new(),
            file: String::new(),
            size_zero: String::new(),
            size_nonzero: String::new(),
            unit: String::new(),
            error: String::new(),
            reset: String::new(),
        }
    }
}

/// The glyphs that tie an entry to its directory: the terminal connector
/// for the last entry of a level, the branch connector for every other.
pub open spec fn connector(last: bool) -> Seq<char> {
    if last {
        "└── "@
    } else {
        "├── "@
    }
}

/// What an entry adds to the prefix of its children: blanks below the last
/// entry of a level, a vertical bar below every other.
pub open spec fn continuation(last: bool) -> Seq<char> {
    if last {
        "    "@
    } else {
        "│   "@
    }
}

/// The line of the root directory.
pub open spec fn root_line(path: Seq<char>) -> Seq<char> {
    "📂 "@ + path + "/\n"@
}

/// The line that stands for a directory that could not be listed.
pub open spec fn denied_line(prefix: Seq<char>) -> Seq<char> {
    prefix + "└── 🔒 [Permission Denied]\n"@
}

/// The line of a folder.
pub open spec fn folder_line(prefix: Seq<char>, last: bool, name: Seq<char>) -> Seq<char> {
    prefix + connector(last) + "📁 "@ + name + "/\n"@
}

/// The start of a file's line, up to the bracket before its size.
pub open spec fn file_line_head(prefix: Seq<char>, last: bool, name: Seq<char>) -> Seq<char> {
    prefix + connector(last) + "📄 "@ + name + " ("@
}

/// The line of a file.
pub open spec fn file_line(prefix: Seq<char>, last: bool, name: Seq<char>, size: u64) -> Seq<char> {
    file_line_head(prefix, last, name) + two_decimals(hundredths(size as nat)) + " "@ + unit_of(
        size as nat,
    ).label_text() + ")\n"@
}

/// The line of an entry in the buffer: without colours, ended by a line
/// feed. An entry of which nothing could be read has no line.
pub open spec fn entry_line(prefix: Seq<char>, last: bool, entry: EntryModel) -> Seq<char> {
    match entry.metadata {
        None => Seq::empty(),
        Some(m) => if m.is_directory {
            folder_line(prefix, last, entry.name)
        } else {
            file_line(prefix, last, entry.name, m.size)
        },
    }
}

/// The root's line with the folder style around it.
pub open spec fn styled_root_line(styles: StylesModel, path: Seq<char>) -> Seq<char> {
    styles.folder + root_line(path) + styles.reset
}

/// The line of an unreadable directory with the error style around it.
pub open spec fn styled_denied_line(styles: StylesModel, prefix: Seq<char>) -> Seq<char> {
    styles.error + denied_line(prefix) + styles.reset
}

/// A folder's line with the folder style around it.
pub open spec fn styled_folder_line(
    styles: StylesModel,
    prefix: Seq<char>,
    last: bool,
    name: Seq<char>,
) -> Seq<char> {
    styles.folder + folder_line(prefix, last, name) + styles.reset
}

/// A file's line in colours: the start in the file style, the magnitude in
/// the style for sizes, an empty magnitude in a style of its own, and the
/// unit in the unit style.
pub open spec fn styled_file_line(
    styles: StylesModel,
    prefix: Seq<char>,
    last: bool,
    name: Seq<char>,
    size: u64,
) -> Seq<char> {
    styles.file + file_line_head(prefix, last, name) + (if hundredths(size as nat) == 0 {
        styles.size_zero
    } else {
        styles.size_nonzero
    }) + two_decimals(hundredths(size as nat)) + styles.reset + " "@ + styles.unit + unit_of(
        size as nat,
    ).label_text() + styles.reset + ")\n"@
}

/// An entry's line with its styles.
pub open spec fn styled_entry_line(
    styles: StylesModel,
    prefix: Seq<char>,
    last: bool,
    entry: EntryModel,
) -> Seq<char> {
    match entry.metadata {
        None => Seq::empty(),
        Some(m) => if m.is_directory {
            styled_folder_line(styles, prefix, last, entry.name)
        } else {
            styled_file_line(styles, prefix, last, entry.name, m.size)
        },
    }
}

/// A line as it goes to the buffer and as it goes to the live output.
#[derive(Debug)]
pub struct Line {
    /// The line without colours.
    pub plain: String,
    /// The line as it is printed: styled where colours are on, else plain.
    pub live: String,
}

/// The connector of an entry.
pub fn connector_text(last: bool) -> (s: &'static str)
    ensures
        s@ == connector(last),
{
    if last {
        "└── "
    } else {
        "├── "
    }
}

/// The prefix for the children of an entry.
pub fn child_prefix(prefix: &str, last: bool) -> (s: String)
    ensures
        s@ == prefix@ + continuation(last),
{
    let mut s = prefix.to_owned();
    if last {
        s.append("    ");
    } else {
        s.append("│   ");
    }
    s
}

/// The line of the root directory, plain and live.
pub fn render_root(path: &str, styles: &Styles, use_colors: bool) -> (line: Line)
    ensures
        line.plain@ == root_line(path@),
        line.live@ == if use_colors {
            styled_root_line(styles@, path@)
        } else {
            root_line(path@)
        },
{
    let mut plain = String::new();
    plain.append("📂 ");
    plain.append(path);
    plain.append("/\n");
    assert(plain@ =~= root_line(path@));
    let live = if use_colors {
        let mut live = styles.folder.clone();
        live.append(plain.as_str());
        live.append(styles.reset.as_str());
        live
    } else {
        plain.clone()
    };
    Line { plain, live }
}

/// The line for a directory that could not be listed, plain and live.
pub fn render_denied(prefix: &str, styles: &Styles, use_colors: bool) -> (line: Line)
    ensures
        line.plain@ == denied_line(prefix@),
        line.live@ == if use_colors {
            styled_denied_line(styles@, prefix@)
        } else {
            denied_line(prefix@)
        },
{
    let mut plain = prefix.to_owned();
    plain.append("└── 🔒 [Permission Denied]\n");
    let live = if use_colors {
        let mut live = styles.error.clone();
        live.append(plain.as_str());
        live.append(styles.reset.as_str());
        live
    } else {
        plain.clone()
    };
    Line { plain, live }
}

/// The line of an entry, plain and live: a folder with its marker and a
/// slash, a file with its marker and its size in brackets, and nothing for
/// an entry whose metadata could not be read.
pub fn render_entry(
    prefix: &str,
    last: bool,
    entry: &DirectoryEntry,
    styles: &Styles,
    use_colors: bool,
) -> (line: Line)
    ensures
        line.plain@ == entry_line(prefix@, last, entry@),
        line.live@ == if use_colors {
            styled_entry_line(styles@, prefix@, last, entry@)
        } else {
            entry_line(prefix@, last, entry@)
        },
{
    match entry.metadata {
        None => Line { plain: String::new(), live: String::new() },
        Some(m) => {
            if m.is_directory {
                let mut plain = prefix.to_owned();
                plain.append(connector_text(last));
                plain.append("📁 ");
                plain.append(entry.name.as_str());
                plain.append("/\n");
                assert(plain@ =~= folder_line(prefix@, last, entry@.name));
                let live = if use_colors {
                    let mut live = styles.folder.clone();
                    live.append(plain.as_str());
                    live.append(styles.reset.as_str());
                    live
                } else {
                    plain.clone()
                };
                Line { plain, live }
            } else {
                let (h, unit) = scale_size(m.size);
                let value = format_hundredths(h);
                let mut head = prefix.to_owned();
                head.append(connector_text(last));
                head.append("📄 ");
                head.append(entry.name.as_str());
                head.append(" (");
                assert(head@ =~= file_line_head(prefix@, last, entry@.name));
                let mut plain = head.clone();
                plain.append(value.as_str());
                plain.append(" ");
                plain.append(unit.label());
                plain.append(")\n");
                assert(plain@ =~= file_line(prefix@, last, entry@.name, m.size));
                let live = if use_colors {
                    let mut live = styles.file.clone();
                    live.append(head.as_str());
                    if h == 0 {
                        live.append(styles.size_zero.as_str());
                    } else {
                        live.append(styles.size_nonzero.as_str());
                    }
                    live.append(value.as_str());
                    live.append(styles.reset.as_str());
                    live.append(" ");
                    live.append(styles.unit.as_str());
                    live.append(unit.label());
                    live.append(styles.reset.as_str());
                    live.append(")\n");
                    assert(live@ =~= styled_file_line(styles@, prefix@, last, entry@.name, m.size));
                    live
                } else {
                    plain.clone()
                };
                Line { plain, live }
            }
        },
    }
}

/// Whether an entry survives: the configuration does not leave its name
/// out, and its metadata could be read. An entry of which nothing could be
/// read is skipped without a trace.
pub open spec fn survives(entry: EntryModel, config: ConfigModel) -> bool {
    entry.metadata is Some && !config.excludes(entry.name)
}

/// The entries that survive, in their order.
pub open spec fn kept(entries: Seq<EntryModel>, config: ConfigModel) -> Seq<EntryModel>
    decreases entries.len(),
{
    if entries.len() == 0 {
        Seq::empty()
    } else if survives(entries.last(), config) {
        kept(entries.drop_last(), config).push(entries.last())
    } else {
        kept(entries.drop_last(), config)
    }
}

/// Where an entry called `name` goes into a sorted list: behind the last
/// entry whose name does not come after it.
pub open spec fn insertion_point(sorted: Seq<EntryModel>, name: Seq<char>) -> int
    decreases sorted.len(),
{
    if sorted.len() == 0 || lex_le(sorted.last().name, name) {
        sorted.len() as int
    } else {
        insertion_point(sorted.drop_last(), name)
    }
}

/// The entries in the order of their names; entries of one name keep the
/// order in which they came.
pub open spec fn sorted_by_name(entries: Seq<EntryModel>) -> Seq<EntryModel>
    decreases entries.len(),
{
    if entries.len() == 0 {
        Seq::empty()
    } else {
        let rest = sorted_by_name(entries.drop_last());
        rest.insert(insertion_point(rest, entries.last().name), entries.last())
    }
}

/// The entries of a directory that are shown, in the order in which they
/// are shown: first what does not survive is taken out, then what is left
/// is put in the order of the names.
pub open spec fn visible(entries: Seq<EntryModel>, config: ConfigModel) -> Seq<EntryModel> {
    sorted_by_name(kept(entries, config))
}

/// Whether the names of a list never go down.
pub open spec fn in_name_order(entries: Seq<EntryModel>) -> bool {
    forall|i: int, j: int| 0 <= i <= j < entries.len() ==> lex_le(#[trigger] entries[i].name, #[trigger] entries[j].name)
}

/// The entries of a directory that are shown, in the order in which they
/// are shown.
pub fn visible_entries(entries: Vec<DirectoryEntry>, config: &ExclusionConfig) -> (shown: Vec<
    DirectoryEntry,
>)
    ensures
        entries_view(shown@) == visible(entries_view(entries@), config@),
{
    let ghost all = entries_view(entries@);
    let mut shown: Vec<DirectoryEntry> = Vec::new();
    let mut keys: Vec<Vec<char>> = Vec::new();
    let ghost mut seen: Seq<EntryModel> = Seq::empty();
    assert(entries_view(shown@) =~= visible(seen, config@));
    for entry in it: entries
        invariant
            entries_view(it.seq()) == all,
            seen == all.take(it.index() as int),
            entries_view(shown@) == visible(seen, config@),
            keys.len() == shown.len(),
            forall|k: int| 0 <= k < keys.len() ==> (#[trigger] keys[k])@ == shown[k].name@,
    {
        let ghost before = kept(seen, config@);
        proof {
            let more = all.take(it.index() + 1);
            assert(more.drop_last() =~= seen);
            assert(more.last() == entry@);
            seen = more;
        }
        if entry.metadata.is_some() && !config.excludes(entry.name.as_str()) {
            assert(kept(seen, config@) == before.push(entry@));
            assert(before.push(entry@).drop_last() =~= before);
            let key = to_chars(entry.name.as_str());
            let ghost sorted = entries_view(shown@);
            let mut pos: usize = shown.len();
            assert(sorted.take(pos as int) =~= sorted);
            while pos > 0 && !name_le(&keys[pos - 1], &key)
                invariant
                    pos <= shown.len(),
                    keys.len() == shown.len(),
                    sorted == entries_view(shown@),
                    key@ == entry.name@,
                    forall|k: int| 0 <= k < keys.len() ==> (#[trigger] keys[k])@ == shown[k].name@,
                    insertion_point(sorted, key@) == insertion_point(sorted.take(pos as int), key@),
                decreases pos,
            {
                assert(sorted.take(pos as int).drop_last() =~= sorted.take(pos - 1));
                pos -= 1;
            }
            assert(insertion_point(sorted, key@) == pos);
            let ghost model = entry@;
            shown.insert(pos, entry);
            keys.insert(pos, key);
            assert(entries_view(shown@) =~= sorted.insert(pos as int, model));
        }
    }
    assert(all.take(all.len() as int) =~= all);
    shown
}

/// One entry of a level as it stands in the tree: the entry, the prefix of
/// its level, and whether it is the last one shown there.
#[derive(Debug)]
pub struct Row {
    pub entry: DirectoryEntry,
    pub prefix: String,
    pub last: bool,
}

/// A row as plain values.
pub struct RowModel {
    pub entry: EntryModel,
    pub prefix: Seq<char>,
    pub last: bool,
}

impl View for Row {
    type V = RowModel;

    open spec fn view(&self) -> RowModel {
        RowModel { entry: self.entry@, prefix: self.prefix@, last: self.last }
    }
}

impl RowModel {
    /// The row's line in the buffer.
    pub open spec fn line(self) -> Seq<char> {
        entry_line(self.prefix, self.last, self.entry)
    }

    /// The row's line in the live output.
    pub open spec fn live_line(self, styles: StylesModel, use_colors: bool) -> Seq<char> {
        if use_colors {
            styled_entry_line(styles, self.prefix, self.last, self.entry)
        } else {
            entry_line(self.prefix, self.last, self.entry)
        }
    }

    /// The prefix of the level below the row.
    pub open spec fn child_prefix(self) -> Seq<char> {
        self.prefix + continuation(self.last)
    }
}

/// The rows of a list, each as plain values.
pub open spec fn rows_view(rows: Seq<Row>) -> Seq<RowModel> {
    rows.map_values(|r: Row| r@)
}

/// The rows of one level: the entries that are shown, in their order, each
/// under the level's prefix, the last of them marked as last. What the
/// configuration excludes counts for nothing here, and neither does an
/// entry whose metadata could not be read.
pub open spec fn rows(entries: Seq<EntryModel>, config: ConfigModel, prefix: Seq<char>) -> Seq<
    RowModel,
> {
    let shown = visible(entries, config);
    Seq::new(
        shown.len(),
        |i: int| RowModel { entry: shown[i], prefix: prefix, last: i == shown.len() - 1 },
    )
}

/// The rows of one level, in the order in which they are shown.
pub fn plan_level(entries: Vec<DirectoryEntry>, config: &ExclusionConfig, prefix: &str) -> (level:
    Vec<Row>)
    ensures
        rows_view(level@) == rows(entries_view(entries@), config@, prefix@),
{
    let ghost expected = rows(entries_view(entries@), config@, prefix@);
    let shown = visible_entries(entries, config);
    let n = shown.len();
    let ghost models = entries_view(shown@);
    let mut level: Vec<Row> = Vec::new();
    for entry in it: shown
        invariant
            entries_view(it.seq()) == models,
            models.len() == n,
            expected.len() == n,
            forall|k: int| 0 <= k < n ==> (#[trigger] expected[k]) == (RowModel {
                entry: models[k],
                prefix: prefix@,
                last: k == n - 1,
            }),
            level.len() == it.index(),
            rows_view(level@) == expected.take(it.index() as int),
    {
        let ghost before = rows_view(level@);
        let ghost model = entry@;
        assert(model == models[it.index() as int]);
        let last = level.len() + 1 == n;
        level.push(Row { entry, prefix: prefix.to_owned(), last });
        assert(rows_view(level@) =~= before.push(
            RowModel { entry: model, prefix: prefix@, last: last },
        ));
        assert(expected.take(it.index() + 1) =~= expected.take(it.index() as int).push(
            expected[it.index() as int],
        ));
    }
    assert(expected.take(n as int) =~= expected);
    level
}

/// Putting an entry into a list in name order leaves it in name order.
pub proof fn lemma_insert_keeps_order(sorted: Seq<EntryModel>, entry: EntryModel)
    requires
        in_name_order(sorted),
    ensures
        0 <= insertion_point(sorted, entry.name) <= sorted.len(),
        forall|k: int| 0 <= k < insertion_point(sorted, entry.name) ==> lex_le(
            (#[trigger] sorted[k]).name,
            entry.name,
        ),
        forall|k: int| insertion_point(sorted, entry.name) <= k < sorted.len() ==> lex_le(
            entry.name,
            (#[trigger] sorted[k]).name,
        ),
        in_name_order(sorted.insert(insertion_point(sorted, entry.name), entry)),
    decreases sorted.len(),
{
    let at = insertion_point(sorted, entry.name);
    if sorted.len() > 0 {
        if lex_le(sorted.last().name, entry.name) {
            assert forall|k: int| 0 <= k < sorted.len() implies lex_le(
                (#[trigger] sorted[k]).name,
                entry.name,
            ) by {
                crate::text::lemma_lex_le_transitive(sorted[k].name, sorted.last().name, entry.name);
            }
        } else {
            let front = sorted.drop_last();
            assert forall|i: int, j: int| 0 <= i <= j < front.len() implies lex_le(
                #[trigger] front[i].name,
                #[trigger] front[j].name,
            ) by {
                assert(front[i] == sorted[i] && front[j] == sorted[j]);
            }
            lemma_insert_keeps_order(front, entry);
            crate::text::lemma_lex_le_total(sorted.last().name, entry.name);
            assert forall|k: int| at <= k < sorted.len() implies lex_le(
                entry.name,
                (#[trigger] sorted[k]).name,
            ) by {
                if k < front.len() {
                    assert(front[k] == sorted[k]);
                }
            }
            assert forall|k: int| 0 <= k < at implies lex_le(
                (#[trigger] sorted[k]).name,
                entry.name,
            ) by {
                assert(front[k] == sorted[k]);
            }
        }
    }
    let longer = sorted.insert(at, entry);
    assert forall|i: int, j: int| 0 <= i <= j < longer.len() implies lex_le(
        #[trigger] longer[i].name,
        #[trigger] longer[j].name,
    ) by {
        if i == j {
            crate::text::lemma_lex_le_reflexive(longer[i].name);
        } else if i == at {
            assert(longer[j] == sorted[j - 1]);
        } else if j == at {
            assert(longer[i] == sorted[i]);
        } else {
            let a = if i < at { i } else { i - 1 };
            let b = if j < at { j } else { j - 1 };
            assert(longer[i] == sorted[a] && longer[j] == sorted[b]);
        }
    }
}

/// What is shown comes in the order of the names, and holds the same
/// entries, each as often, as the list that was sorted.
pub proof fn lemma_sorted_by_name(entries: Seq<EntryModel>)
    ensures
        in_name_order(sorted_by_name(entries)),
        sorted_by_name(entries).to_multiset() == entries.to_multiset(),
        sorted_by_name(entries).len() == entries.len(),
    decreases entries.len(),
{
    broadcast use vstd::seq_lib::group_to_multiset_ensures;

    if entries.len() > 0 {
        let front = entries.drop_last();
        let rest = sorted_by_name(front);
        lemma_sorted_by_name(front);
        lemma_insert_keeps_order(rest, entries.last());
        let at = insertion_point(rest, entries.last().name);
        assert(entries =~= front.push(entries.last()));
        assert(rest.insert(at, entries.last()).to_multiset() =~= rest.to_multiset().insert(
            entries.last(),
        ));
        assert(front.push(entries.last()).to_multiset() =~= front.to_multiset().insert(
            entries.last(),
        ));
    } else {
        assert(sorted_by_name(entries).to_multiset() =~= entries.to_multiset());
    }
}

/// An entry is among those kept exactly if it is in the listing and
/// survives.
pub proof fn lemma_kept(entries: Seq<EntryModel>, config: ConfigModel, entry: EntryModel)
    ensures
        kept(entries, config).contains(entry) <==> (entries.contains(entry) && survives(
            entry,
            config,
        )),
    decreases entries.len(),
{
    if entries.len() > 0 {
        let front = entries.drop_last();
        let last = entries.last();
        lemma_kept(front, config, entry);
        let before = kept(front, config);
        if entries.contains(entry) {
            let i = choose|i: int| 0 <= i < entries.len() && entries[i] == entry;
            if i < front.len() {
                assert(front[i] == entry);
            }
        }
        if front.contains(entry) {
            let i = choose|i: int| 0 <= i < front.len() && front[i] == entry;
            assert(entries[i] == entry);
        }
        assert(entries[entries.len() - 1] == last);
        if survives(last, config) {
            let after = before.push(last);
            if after.contains(entry) {
                let i = choose|i: int| 0 <= i < after.len() && after[i] == entry;
                if i < before.len() {
                    assert(before[i] == entry);
                }
            }
            if before.contains(entry) {
                let i = choose|i: int| 0 <= i < before.len() && before[i] == entry;
                assert(after[i] == entry);
            }
            assert(after[before.len() as int] == last);
        }
    }
}

/// An entry of a directory is shown exactly if it survives: its metadata
/// could be read, and the configuration does not exclude its name.
pub proof fn lemma_visible(entries: Seq<EntryModel>, config: ConfigModel, entry: EntryModel)
    ensures
        visible(entries, config).contains(entry) <==> (entries.contains(entry) && survives(
            entry,
            config,
        )),
        in_name_order(visible(entries, config)),
{
    broadcast use vstd::seq_lib::group_to_multiset_ensures;

    let k = kept(entries, config);
    lemma_kept(entries, config, entry);
    lemma_sorted_by_name(k);
    assert(sorted_by_name(k).contains(entry) <==> sorted_by_name(k).to_multiset().count(entry) > 0);
    assert(k.contains(entry) <==> k.to_multiset().count(entry) > 0);
}

/// Whether `text` begins with `head`.
pub open spec fn begins_with(text: Seq<char>, head: Seq<char>) -> bool {
    head.len() <= text.len() && text.take(head.len() as int) == head
}

/// The line of an entry begins with the prefix of its level and its
/// connector, where the entry has a line at all.
pub proof fn lemma_line_begins_with_connector(row: RowModel)
    requires
        row.entry.metadata is Some,
    ensures
        begins_with(row.line(), row.prefix + connector(row.last)),
{
    let head = row.prefix + connector(row.last);
    assert(row.line().take(head.len() as int) =~= head);
}

/// Connectors go by what is shown: of the rows of a level the last one, and
/// no other, is marked as last, however many entries the listing held.
pub proof fn lemma_only_the_last_row_is_last(
    entries: Seq<EntryModel>,
    config: ConfigModel,
    prefix: Seq<char>,
    i: int,
)
    requires
        0 <= i < visible(entries, config).len(),
    ensures
        rows(entries, config, prefix).len() == visible(entries, config).len(),
        rows(entries, config, prefix)[i].entry == visible(entries, config)[i],
        rows(entries, config, prefix)[i].prefix == prefix,
        rows(entries, config, prefix)[i].last <==> i == visible(entries, config).len() - 1,
{
}

/// The blank continuation holds no vertical bar; the other one begins with
/// it.
pub proof fn lemma_continuations()
    ensures
        !continuation(true).contains('│'),
        continuation(false).contains('│'),
        continuation(true).len() == 4,
        continuation(false).len() == 4,
{
    reveal_strlit("    ");
    reveal_strlit("│   ");
    assert(continuation(false)[0] == '│');
    assert forall|i: int| 0 <= i < continuation(true).len() implies continuation(true)[i] != '│' by {
        assert(continuation(true)[i] == ' ');
    }
}

/// Every row of a level has a line: what is shown has metadata, so the last
/// row of a level is the last line of the level, and carries the terminal
/// connector.
pub proof fn lemma_every_row_has_a_line(
    entries: Seq<EntryModel>,
    config: ConfigModel,
    prefix: Seq<char>,
    i: int,
)
    requires
        0 <= i < visible(entries, config).len(),
    ensures
        rows(entries, config, prefix)[i].entry.metadata is Some,
        begins_with(
            rows(entries, config, prefix)[i].line(),
            prefix + connector(i == visible(entries, config).len() - 1),
        ),
{
    let shown = visible(entries, config);
    assert(shown.contains(shown[i]));
    lemma_visible(entries, config, shown[i]);
    lemma_only_the_last_row_is_last(entries, config, prefix, i);
    lemma_line_begins_with_connector(rows(entries, config, prefix)[i]);
}

/// Of exactly two shown children the first has the branch connector and the
/// second the terminal one; the prefix below the first is the level's
/// prefix and a vertical bar, the prefix below the second is the level's
/// prefix and blanks, with no bar that the level's prefix did not have.
pub proof fn lemma_two_children(entries: Seq<EntryModel>, config: ConfigModel, prefix: Seq<char>)
    requires
        visible(entries, config).len() == 2,
    ensures
        ({
            let level = rows(entries, config, prefix);
            &&& level.len() == 2
            &&& !level[0].last
            &&& level[1].last
            &&& begins_with(level[0].line(), prefix + "├── "@)
            &&& begins_with(level[1].line(), prefix + "└── "@)
            &&& level[0].child_prefix() == prefix + "│   "@
            &&& level[1].child_prefix() == prefix + "    "@
            &&& level[0].child_prefix().contains('│')
            &&& !prefix.contains('│') ==> !level[1].child_prefix().contains('│')
        }),
{
    let level = rows(entries, config, prefix);
    lemma_only_the_last_row_is_last(entries, config, prefix, 0);
    lemma_only_the_last_row_is_last(entries, config, prefix, 1);
    lemma_continuations();
    lemma_every_row_has_a_line(entries, config, prefix, 0);
    lemma_every_row_has_a_line(entries, config, prefix, 1);
    lemma_line_begins_with_connector(level[0]);
    lemma_line_begins_with_connector(level[1]);
    let below_first = level[0].child_prefix();
    let bar = choose|k: int| 0 <= k < continuation(false).len() && continuation(false)[k] == '│';
    assert(below_first[prefix.len() + bar] == '│');
    let below_second = level[1].child_prefix();
    if !prefix.contains('│') && below_second.contains('│') {
        let k = choose|k: int| 0 <= k < below_second.len() && below_second[k] == '│';
        if k < prefix.len() {
            assert(prefix[k] == '│');
        } else {
            assert(continuation(true)[k - prefix.len()] == '│');
        }
    }
}

/// What the built-in names mean for a listing. With them in force, an entry
/// that bears one of them is not shown unless an exception matches its
/// name. With them suppressed, an entry that is in the listing, and whose
/// metadata could be read, is shown wherever the caller gave no reason of
/// their own to leave it out: its name is no manual exclude, and no ignore
/// file holds a rule that covers it.
pub proof fn lemma_default_excludes_in_the_listing(
    entries: Seq<EntryModel>,
    entry: EntryModel,
    contents: Seq<Seq<char>>,
    manual_excludes: Set<Seq<char>>,
    exceptions: Seq<PatternModel>,
)
    ensures
        default_excludes().contains(entry.name) && !excepted(entry.name, exceptions) ==> !visible(
            entries,
            ConfigModel {
                manual_excludes,
                ignore_rules: loaded_rules(contents, false),
                exceptions,
            },
        ).contains(entry),
        entries.contains(entry) && entry.metadata is Some && !manual_excludes.contains(entry.name)
            && (forall|i: int|
            0 <= i < contents.len() ==> !ignored(entry.name, rules_in(#[trigger] contents[i])))
            ==> visible(
            entries,
            ConfigModel { manual_excludes, ignore_rules: loaded_rules(contents, true), exceptions },
        ).contains(entry),
{
    let in_force = ConfigModel {
        manual_excludes,
        ignore_rules: loaded_rules(contents, false),
        exceptions,
    };
    let suppressed = ConfigModel {
        manual_excludes,
        ignore_rules: loaded_rules(contents, true),
        exceptions,
    };
    lemma_visible(entries, in_force, entry);
    lemma_visible(entries, suppressed, entry);
    if default_excludes().contains(entry.name) && !excepted(entry.name, exceptions) {
        lemma_defaults_are_excluded(entry.name, contents, manual_excludes, exceptions);
    }
    if !manual_excludes.contains(entry.name) && (forall|i: int|
        0 <= i < contents.len() ==> !ignored(entry.name, rules_in(#[trigger] contents[i]))) {
        lemma_suppressed_defaults_are_shown(entry.name, contents, manual_excludes, exceptions);
    }
}

} // verus!
