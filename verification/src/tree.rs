//! The tree that a walk draws, stated once and for all: the recursive,
//! depth-first picture of a directory, and the proof that the walker, handed
//! for each question what the file system holds, draws exactly that picture.

use vstd::prelude::*;
use crate::exclude::{
    accepted, lemma_refused_exception_changes_nothing, outcomes_of, patterns_view, same_answers,
    ConfigModel,
};
use crate::pattern::{ParseError, Pattern};
use crate::render::{denied_line, rows, styled_denied_line, RowModel, StylesModel};
use crate::walk::{
    absorb, action_for, prefix_for, settle, step_model, ActionModel, EventModel, WalkerModel,
};

verus! {

/// How a picture is drawn: plain, as in the buffer, where this is `None`;
/// in the given styles otherwise.
pub type Pen = Option<StylesModel>;

/// The pen of a walker's live output.
pub open spec fn live_pen(walker: WalkerModel) -> Pen {
    if walker.use_colors {
        Some(walker.styles)
    } else {
        None
    }
}

/// A row's line as the pen draws it.
pub open spec fn drawn_line(row: RowModel, pen: Pen) -> Seq<char> {
    match pen {
        None => row.line(),
        Some(styles) => row.live_line(styles, true),
    }
}

/// The marker of an unreadable directory as the pen draws it.
pub open spec fn drawn_marker(prefix: Seq<char>, pen: Pen) -> Seq<char> {
    match pen {
        None => denied_line(prefix),
        Some(styles) => styled_denied_line(styles, prefix),
    }
}

/// The picture of the directory at `path`, its children under `prefix`: a
/// marker line where it cannot be listed, else its rows, each followed by
/// the picture of what it holds. `depth` bounds how far down the picture
/// goes.
pub open spec fn picture_of_directory(
    fs: spec_fn(Seq<char>) -> EventModel,
    config: ConfigModel,
    pen: Pen,
    path: Seq<char>,
    prefix: Seq<char>,
    depth: nat,
) -> Seq<char>
    decreases depth, 1nat, 0nat,
{
    match fs(path) {
        EventModel::Unreadable => drawn_marker(prefix, pen),
        EventModel::Listing(entries) => picture_of_rows(
            fs,
            config,
            pen,
            rows(entries, config, prefix),
            depth,
        ),
    }
}

/// The picture of the rows of a level: the line of each row in turn, a
/// directory's line before the picture of the directory.
pub open spec fn picture_of_rows(
    fs: spec_fn(Seq<char>) -> EventModel,
    config: ConfigModel,
    pen: Pen,
    level: Seq<RowModel>,
    depth: nat,
) -> Seq<char>
    decreases depth, 0nat, level.len(),
{
    if level.len() == 0 {
        Seq::empty()
    } else {
        let row = level[0];
        let below = if row.entry.is_directory() && depth > 0 {
            picture_of_directory(
                fs,
                config,
                pen,
                row.entry.path,
                row.child_prefix(),
                (depth - 1) as nat,
            )
        } else {
            Seq::empty()
        };
        drawn_line(row, pen) + below + picture_of_rows(fs, config, pen, level.skip(1), depth)
    }
}

/// The tree of the directory at `path` as it stands in the buffer: the
/// plain picture.
pub open spec fn tree_of_directory(
    fs: spec_fn(Seq<char>) -> EventModel,
    config: ConfigModel,
    path: Seq<char>,
    prefix: Seq<char>,
    depth: nat,
) -> Seq<char> {
    picture_of_directory(fs, config, None, path, prefix, depth)
}

/// Whether the tree below `path` is at most `depth` levels of directories
/// deep, counting only what is shown.
pub open spec fn directory_fits(
    fs: spec_fn(Seq<char>) -> EventModel,
    config: ConfigModel,
    path: Seq<char>,
    prefix: Seq<char>,
    depth: nat,
) -> bool
    decreases depth, 1nat, 0nat,
{
    match fs(path) {
        EventModel::Unreadable => true,
        EventModel::Listing(entries) => rows_fit(fs, config, rows(entries, config, prefix), depth),
    }
}

/// Whether the trees below the rows of a level are at most `depth` levels
/// deep.
pub open spec fn rows_fit(
    fs: spec_fn(Seq<char>) -> EventModel,
    config: ConfigModel,
    level: Seq<RowModel>,
    depth: nat,
) -> bool
    decreases depth, 0nat, level.len(),
{
    if level.len() == 0 {
        true
    } else {
        let row = level[0];
        &&& row.entry.is_directory() ==> depth > 0 && directory_fits(
            fs,
            config,
            row.entry.path,
            row.child_prefix(),
            (depth - 1) as nat,
        )
        &&& rows_fit(fs, config, level.skip(1), depth)
    }
}

/// The directories below `path` that the picture shows, each before what it
/// holds.
pub open spec fn directories_below(
    fs: spec_fn(Seq<char>) -> EventModel,
    config: ConfigModel,
    path: Seq<char>,
    prefix: Seq<char>,
    depth: nat,
) -> Seq<Seq<char>>
    decreases depth, 1nat, 0nat,
{
    match fs(path) {
        EventModel::Unreadable => Seq::empty(),
        EventModel::Listing(entries) => directories_in_rows(
            fs,
            config,
            rows(entries, config, prefix),
            depth,
        ),
    }
}

/// The directories among the rows of a level and below them, each before
/// what it holds.
pub open spec fn directories_in_rows(
    fs: spec_fn(Seq<char>) -> EventModel,
    config: ConfigModel,
    level: Seq<RowModel>,
    depth: nat,
) -> Seq<Seq<char>>
    decreases depth, 0nat, level.len(),
{
    if level.len() == 0 {
        Seq::empty()
    } else {
        let row = level[0];
        let here = if row.entry.is_directory() && depth > 0 {
            seq![row.entry.path] + directories_below(
                fs,
                config,
                row.entry.path,
                row.child_prefix(),
                (depth - 1) as nat,
            )
        } else {
            Seq::empty()
        };
        here + directories_in_rows(fs, config, level.skip(1), depth)
    }
}

/// What the file system holds at each of the paths.
pub open spec fn answers_to(fs: spec_fn(Seq<char>) -> EventModel, paths: Seq<Seq<char>>) -> Seq<
    EventModel,
> {
    paths.map_values(|p: Seq<char>| fs(p))
}

/// The requests to list each of the paths.
pub open spec fn requests_for(paths: Seq<Seq<char>>) -> Seq<ActionModel> {
    paths.map_values(|p: Seq<char>| ActionModel::List(p))
}

/// Where a walk stands, what the walker has asked for on the way, and what
/// it has handed out to be printed.
pub struct RunModel {
    pub walker: WalkerModel,
    pub actions: Seq<ActionModel>,
    pub live: Seq<char>,
}

/// The walk from `walker` on, through the given events: each event is one
/// step; each step's action joins those before it, and so does what it
/// prints.
pub open spec fn run_from(
    walker: WalkerModel,
    actions: Seq<ActionModel>,
    live: Seq<char>,
    events: Seq<EventModel>,
) -> RunModel
    decreases events.len(),
{
    if events.len() == 0 {
        RunModel { walker, actions, live }
    } else {
        let step = step_model(walker, events[0]);
        run_from(step.walker, actions.push(step.action), live + step.live, events.skip(1))
    }
}

/// The walk from `walker` on, through the given events.
pub open spec fn run(walker: WalkerModel, events: Seq<EventModel>) -> RunModel {
    run_from(walker, Seq::empty(), Seq::empty(), events)
}

/// A walker that has taken an event in and has yet to write the rows that
/// are `upcoming`, in the order in which they will be shown.
pub open spec fn poised(walker: WalkerModel, upcoming: Seq<RowModel>, buffer: Seq<char>) -> WalkerModel {
    WalkerModel {
        config: walker.config,
        styles: walker.styles,
        use_colors: walker.use_colors,
        pending: upcoming.reverse(),
        awaiting: None,
        buffer: buffer,
    }
}

/// The walk of a poised walker: it writes its rows up to the next
/// directory, asks, and goes on through the events.
#[verifier::opaque]
pub open spec fn resume(
    walker: WalkerModel,
    actions: Seq<ActionModel>,
    live: Seq<char>,
    events: Seq<EventModel>,
) -> RunModel {
    let settled = settle(walker.pending, walker.styles, walker.use_colors);
    run_from(
        WalkerModel {
            config: walker.config,
            styles: walker.styles,
            use_colors: walker.use_colors,
            pending: settled.pending,
            awaiting: prefix_for(settled.next),
            buffer: walker.buffer + settled.plain,
        },
        actions.push(action_for(settled.next)),
        live + settled.live,
        events,
    )
}

/// The walker after it has taken an event in, before it writes any row.
pub open spec fn taken_in(walker: WalkerModel, event: EventModel) -> WalkerModel {
    WalkerModel {
        config: walker.config,
        styles: walker.styles,
        use_colors: walker.use_colors,
        pending: absorb(walker, event).pending,
        awaiting: None,
        buffer: walker.buffer + absorb(walker, event).plain,
    }
}

/// A step is: take the event in, then go on as a poised walker does.
pub proof fn lemma_step_resumes(
    walker: WalkerModel,
    actions: Seq<ActionModel>,
    live: Seq<char>,
    event: EventModel,
    rest: Seq<EventModel>,
)
    ensures
        run_from(walker, actions, live, seq![event] + rest) == resume(
            taken_in(walker, event),
            actions,
            live + absorb(walker, event).live,
            rest,
        ),
{
    reveal(resume);
    let events = seq![event] + rest;
    assert(events[0] == event);
    assert(events.skip(1) =~= rest);
    let taken = absorb(walker, event);
    let settled = settle(taken.pending, walker.styles, walker.use_colors);
    assert(live + (taken.live + settled.live) =~= live + taken.live + settled.live);
}

/// Answers and requests go path by path.
pub proof fn lemma_answers_split(
    fs: spec_fn(Seq<char>) -> EventModel,
    first: Seq<Seq<char>>,
    second: Seq<Seq<char>>,
)
    ensures
        answers_to(fs, first + second) == answers_to(fs, first) + answers_to(fs, second),
        requests_for(first + second) == requests_for(first) + requests_for(second),
{
    assert(answers_to(fs, first + second) =~= answers_to(fs, first) + answers_to(fs, second));
    assert(requests_for(first + second) =~= requests_for(first) + requests_for(second));
}

/// A poised walker passes a row that is no directory by writing its line.
pub proof fn lemma_row_is_passed(
    walker: WalkerModel,
    row: RowModel,
    later: Seq<RowModel>,
    buffer: Seq<char>,
    actions: Seq<ActionModel>,
    live: Seq<char>,
    events: Seq<EventModel>,
)
    requires
        !row.entry.is_directory(),
    ensures
        resume(poised(walker, seq![row] + later, buffer), actions, live, events) == resume(
            poised(walker, later, buffer + row.line()),
            actions,
            live + drawn_line(row, live_pen(walker)),
            events,
        ),
{
    reveal(resume);
    let start = poised(walker, seq![row] + later, buffer);
    assert(start.pending.last() == row);
    assert(start.pending.drop_last() =~= later.reverse());
    let rest = settle(later.reverse(), walker.styles, walker.use_colors);
    let printed = row.live_line(walker.styles, walker.use_colors);
    assert(printed == drawn_line(row, live_pen(walker)));
    assert(buffer + (row.line() + rest.plain) =~= buffer + row.line() + rest.plain);
    assert(live + (printed + rest.live) =~= live + printed + rest.live);
}

/// Where a poised walker stands after it has stopped at a directory and
/// taken the answer in: behind the marker line of a directory that cannot
/// be listed, or before the rows of the directory, which come first.
pub open spec fn entered(
    walker: WalkerModel,
    row: RowModel,
    later: Seq<RowModel>,
    buffer: Seq<char>,
    event: EventModel,
) -> WalkerModel {
    match event {
        EventModel::Unreadable => poised(
            walker,
            later,
            buffer + row.line() + denied_line(row.child_prefix()),
        ),
        EventModel::Listing(entries) => poised(
            walker,
            rows(entries, walker.config, row.child_prefix()) + later,
            buffer + row.line(),
        ),
    }
}

/// What has been printed when a poised walker has stopped at a directory
/// and taken the answer in: the directory's line, and the marker where the
/// directory cannot be listed.
pub open spec fn printed_on_entry(
    walker: WalkerModel,
    row: RowModel,
    live: Seq<char>,
    event: EventModel,
) -> Seq<char> {
    match event {
        EventModel::Unreadable => live + drawn_line(row, live_pen(walker)) + drawn_marker(
            row.child_prefix(),
            live_pen(walker),
        ),
        EventModel::Listing(entries) => live + drawn_line(row, live_pen(walker)),
    }
}

/// A poised walker stops at a directory: it writes the directory's line,
/// asks for its listing, and takes the answer in.
pub proof fn lemma_directory_is_entered(
    walker: WalkerModel,
    row: RowModel,
    later: Seq<RowModel>,
    buffer: Seq<char>,
    actions: Seq<ActionModel>,
    live: Seq<char>,
    event: EventModel,
    rest: Seq<EventModel>,
)
    requires
        row.entry.is_directory(),
    ensures
        resume(poised(walker, seq![row] + later, buffer), actions, live, seq![event] + rest)
            == resume(
            entered(walker, row, later, buffer, event),
            actions.push(ActionModel::List(row.entry.path)),
            printed_on_entry(walker, row, live, event),
            rest,
        ),
{
    reveal(resume);
    let start = poised(walker, seq![row] + later, buffer);
    assert(start.pending.last() == row);
    assert(start.pending.drop_last() =~= later.reverse());
    let waiting = WalkerModel {
        config: walker.config,
        styles: walker.styles,
        use_colors: walker.use_colors,
        pending: later.reverse(),
        awaiting: Some(row.child_prefix()),
        buffer: buffer + row.line(),
    };
    let asked = actions.push(ActionModel::List(row.entry.path));
    let printed = live + drawn_line(row, live_pen(walker));
    assert(row.live_line(walker.styles, walker.use_colors) == drawn_line(row, live_pen(walker)));
    assert(resume(start, actions, live, seq![event] + rest) == run_from(
        waiting,
        asked,
        printed,
        seq![event] + rest,
    ));
    lemma_step_resumes(waiting, asked, printed, event, rest);
    match event {
        EventModel::Unreadable => {
            assert(taken_in(waiting, event) == entered(walker, row, later, buffer, event));
            assert(absorb(waiting, event).live == drawn_marker(
                row.child_prefix(),
                live_pen(walker),
            ));
        },
        EventModel::Listing(entries) => {
            let level = rows(entries, walker.config, row.child_prefix());
            assert(taken_in(waiting, event).pending =~= (level + later).reverse());
            assert(taken_in(waiting, event).buffer =~= buffer + row.line());
            assert(taken_in(waiting, event) == entered(walker, row, later, buffer, event));
            assert(printed + absorb(waiting, event).live =~= printed);
        },
    }
}

/// A poised walker that goes through the answers for the directories among
/// its first rows ends up where it would stand had it written the whole
/// picture of those rows at once: the plain picture is in the buffer, the
/// live picture has been printed, the directories were asked for in their
/// order, and the rows below are still to come.
pub proof fn lemma_rows_are_drawn(
    walker: WalkerModel,
    fs: spec_fn(Seq<char>) -> EventModel,
    upcoming: Seq<RowModel>,
    below: Seq<RowModel>,
    buffer: Seq<char>,
    actions: Seq<ActionModel>,
    live: Seq<char>,
    more: Seq<EventModel>,
    depth: nat,
)
    requires
        rows_fit(fs, walker.config, upcoming, depth),
    ensures
        resume(
            poised(walker, upcoming + below, buffer),
            actions,
            live,
            answers_to(fs, directories_in_rows(fs, walker.config, upcoming, depth)) + more,
        ) == resume(
            poised(
                walker,
                below,
                buffer + picture_of_rows(fs, walker.config, None, upcoming, depth),
            ),
            actions + requests_for(directories_in_rows(fs, walker.config, upcoming, depth)),
            live + picture_of_rows(fs, walker.config, live_pen(walker), upcoming, depth),
            more,
        ),
    decreases depth, upcoming.len(),
{
    let config = walker.config;
    let pen = live_pen(walker);
    let found = directories_in_rows(fs, config, upcoming, depth);
    let drawn = picture_of_rows(fs, config, None, upcoming, depth);
    let shown = picture_of_rows(fs, config, pen, upcoming, depth);
    if upcoming.len() == 0 {
        assert(upcoming + below =~= below);
        assert(buffer + drawn =~= buffer);
        assert(live + shown =~= live);
        assert(answers_to(fs, found) + more =~= more);
        assert(actions + requests_for(found) =~= actions);
    } else {
        let row = upcoming[0];
        let others = upcoming.skip(1);
        let later = others + below;
        assert(upcoming + below =~= seq![row] + later);
        let found_later = directories_in_rows(fs, config, others, depth);
        let drawn_later = picture_of_rows(fs, config, None, others, depth);
        let shown_later = picture_of_rows(fs, config, pen, others, depth);
        let line = row.line();
        let live_line = drawn_line(row, pen);
        if !row.entry.is_directory() {
            assert(found =~= found_later);
            assert(buffer + drawn =~= buffer + line + drawn_later);
            assert(live + shown =~= live + live_line + shown_later);
            lemma_row_is_passed(
                walker,
                row,
                later,
                buffer,
                actions,
                live,
                answers_to(fs, found) + more,
            );
            lemma_rows_are_drawn(
                walker,
                fs,
                others,
                below,
                buffer + line,
                actions,
                live + live_line,
                more,
                depth,
            );
        } else {
            let path = row.entry.path;
            let inner_prefix = row.child_prefix();
            let inner_depth = (depth - 1) as nat;
            let inside = directories_below(fs, config, path, inner_prefix, inner_depth);
            let drawn_inside = picture_of_directory(
                fs,
                config,
                None,
                path,
                inner_prefix,
                inner_depth,
            );
            let shown_inside = picture_of_directory(
                fs,
                config,
                pen,
                path,
                inner_prefix,
                inner_depth,
            );
            let asked = actions.push(ActionModel::List(path));
            let rest = answers_to(fs, inside) + (answers_to(fs, found_later) + more);
            assert(directory_fits(fs, config, path, inner_prefix, inner_depth));
            assert(found =~= seq![path] + inside + found_later);
            assert(buffer + drawn =~= buffer + line + drawn_inside + drawn_later);
            assert(live + shown =~= live + live_line + shown_inside + shown_later);
            lemma_answers_and_requests(fs, actions, path, inside, found_later, more);
            lemma_directory_is_entered(walker, row, later, buffer, actions, live, fs(path), rest);
            match fs(path) {
                EventModel::Unreadable => {
                    assert(inside =~= Seq::<Seq<char>>::empty());
                    assert(rest =~= answers_to(fs, found_later) + more);
                    assert(asked + requests_for(inside) =~= asked);
                },
                EventModel::Listing(entries) => {
                    let level = rows(entries, config, inner_prefix);
                    assert(rows_fit(fs, config, level, inner_depth));
                    lemma_rows_are_drawn(
                        walker,
                        fs,
                        level,
                        later,
                        buffer + line,
                        asked,
                        live + live_line,
                        answers_to(fs, found_later) + more,
                        inner_depth,
                    );
                },
            }
            lemma_rows_are_drawn(
                walker,
                fs,
                others,
                below,
                buffer + line + drawn_inside,
                asked + requests_for(inside),
                live + live_line + shown_inside,
                more,
                depth,
            );
        }
    }
}

/// The answers and requests for a directory, what lies in it and what
/// comes after it, taken apart.
pub proof fn lemma_answers_and_requests(
    fs: spec_fn(Seq<char>) -> EventModel,
    actions: Seq<ActionModel>,
    path: Seq<char>,
    inside: Seq<Seq<char>>,
    later: Seq<Seq<char>>,
    more: Seq<EventModel>,
)
    ensures
        answers_to(fs, seq![path] + inside + later) + more == seq![fs(path)] + (answers_to(
            fs,
            inside,
        ) + (answers_to(fs, later) + more)),
        actions + requests_for(seq![path] + inside + later) == actions.push(
            ActionModel::List(path),
        ) + requests_for(inside) + requests_for(later),
{
    assert(answers_to(fs, seq![path] + inside + later) + more =~= seq![fs(path)] + (answers_to(
        fs,
        inside,
    ) + (answers_to(fs, later) + more)));
    assert(actions + requests_for(seq![path] + inside + later) =~= actions.push(
        ActionModel::List(path),
    ) + requests_for(inside) + requests_for(later));
}

/// The walker draws the tree. A walker that waits for the listing of
/// `path` with nothing pending, and is handed for each directory it asks for
/// what the file system holds there, asks for exactly the directories that
/// the picture shows, each before what it holds, and then is done. Its
/// buffer has grown by the plain picture of `path`, whether colours are on
/// or not; what it handed out to be printed is the picture in the walker's
/// styles where colours are on, and the plain picture where they are off;
/// and nothing is left pending.
///
/// This holds of every tree of finite depth.
pub proof fn theorem_walk_draws_the_tree(
    walker: WalkerModel,
    fs: spec_fn(Seq<char>) -> EventModel,
    path: Seq<char>,
    prefix: Seq<char>,
    depth: nat,
)
    requires
        walker.awaiting == Some(prefix),
        walker.pending.len() == 0,
        directory_fits(fs, walker.config, path, prefix, depth),
    ensures
        ({
            let asked = directories_below(fs, walker.config, path, prefix, depth);
            let end = run(walker, answers_to(fs, seq![path] + asked));
            &&& end.walker.buffer == walker.buffer + tree_of_directory(
                fs,
                walker.config,
                path,
                prefix,
                depth,
            )
            &&& end.live == picture_of_directory(
                fs,
                walker.config,
                live_pen(walker),
                path,
                prefix,
                depth,
            )
            &&& end.walker.pending.len() == 0
            &&& end.walker.awaiting is None
            &&& end.walker.config == walker.config
            &&& end.actions == requests_for(asked).push(ActionModel::Done)
        }),
{
    reveal(resume);
    let config = walker.config;
    let pen = live_pen(walker);
    let asked = directories_below(fs, config, path, prefix, depth);
    let drawn = tree_of_directory(fs, config, path, prefix, depth);
    let shown = picture_of_directory(fs, config, pen, path, prefix, depth);
    let nothing = Seq::<RowModel>::empty();
    let silence = Seq::<char>::empty();
    lemma_answers_split(fs, seq![path], asked);
    assert(answers_to(fs, seq![path]) =~= seq![fs(path)]);
    let rest = answers_to(fs, asked);
    lemma_step_resumes(walker, Seq::empty(), silence, fs(path), rest);
    let begun = taken_in(walker, fs(path));
    let printed = silence + absorb(walker, fs(path)).live;
    let finished = poised(walker, nothing, walker.buffer + drawn);
    assert(nothing.reverse() =~= nothing);
    match fs(path) {
        EventModel::Unreadable => {
            assert(walker.pending =~= nothing);
            assert(begun == finished);
            assert(printed =~= shown);
            assert(rest =~= Seq::<EventModel>::empty());
            assert(requests_for(asked) =~= Seq::<ActionModel>::empty());
        },
        EventModel::Listing(entries) => {
            let level = rows(entries, config, prefix);
            assert(walker.pending + level.reverse() =~= (level + nothing).reverse());
            assert(begun.buffer =~= walker.buffer);
            assert(begun == poised(walker, level + nothing, walker.buffer));
            assert(printed =~= silence);
            lemma_rows_are_drawn(
                walker,
                fs,
                level,
                nothing,
                walker.buffer,
                Seq::empty(),
                silence,
                Seq::empty(),
                depth,
            );
            assert(rest + Seq::<EventModel>::empty() =~= rest);
            assert(Seq::<ActionModel>::empty() + requests_for(asked) =~= requests_for(asked));
            assert(silence + shown =~= shown);
        },
    }
    assert(resume(begun, Seq::empty(), printed, rest) == resume(
        finished,
        requests_for(asked),
        shown,
        Seq::empty(),
    ));
    assert(finished.buffer + Seq::<char>::empty() =~= finished.buffer);
    assert(shown + Seq::<char>::empty() =~= shown);
}

/// Rendering is repeatable: two walks of one directory, under one
/// configuration and with nothing changed on disk, fill their buffers with
/// the same text and ask for the same directories, whether or not either
/// of them prints in colours.
pub proof fn lemma_rendering_is_repeatable(
    first: WalkerModel,
    second: WalkerModel,
    fs: spec_fn(Seq<char>) -> EventModel,
    path: Seq<char>,
    prefix: Seq<char>,
    depth: nat,
)
    requires
        first.config == second.config,
        first.buffer == second.buffer,
        first.awaiting == Some(prefix),
        second.awaiting == Some(prefix),
        first.pending.len() == 0,
        second.pending.len() == 0,
        directory_fits(fs, first.config, path, prefix, depth),
    ensures
        ({
            let asked = directories_below(fs, first.config, path, prefix, depth);
            let events = answers_to(fs, seq![path] + asked);
            &&& run(first, events).walker.buffer == run(second, events).walker.buffer
            &&& run(first, events).actions == run(second, events).actions
            &&& live_pen(first) == live_pen(second) ==> run(first, events).live == run(
                second,
                events,
            ).live
        }),
{
    theorem_walk_draws_the_tree(first, fs, path, prefix, depth);
    theorem_walk_draws_the_tree(second, fs, path, prefix, depth);
}

/// A refused exception pattern changes nothing in the tree. Two walks of
/// one directory, one configured from a list of raw exception patterns of
/// which the engine refused one, the other from the same list without that
/// one, the engine answering for the other strings as before: both fill
/// their buffers with the same text and ask for the same directories.
pub proof fn lemma_refused_exception_draws_the_same_tree(
    first: WalkerModel,
    second: WalkerModel,
    raws: Seq<Seq<char>>,
    outcomes: Seq<Result<Pattern, ParseError>>,
    i: int,
    without: Seq<Result<Pattern, ParseError>>,
    fs: spec_fn(Seq<char>) -> EventModel,
    path: Seq<char>,
    prefix: Seq<char>,
    depth: nat,
)
    requires
        outcomes_of(raws, outcomes),
        0 <= i < raws.len(),
        outcomes[i] is Err,
        outcomes_of(raws.remove(i), without),
        same_answers(outcomes.remove(i), without),
        first.config.exceptions == patterns_view(accepted(outcomes)),
        second.config.exceptions == patterns_view(accepted(without)),
        first.config.manual_excludes == second.config.manual_excludes,
        first.config.ignore_rules == second.config.ignore_rules,
        first.buffer == second.buffer,
        first.awaiting == Some(prefix),
        second.awaiting == Some(prefix),
        first.pending.len() == 0,
        second.pending.len() == 0,
        directory_fits(fs, first.config, path, prefix, depth),
    ensures
        ({
            let asked = directories_below(fs, first.config, path, prefix, depth);
            let events = answers_to(fs, seq![path] + asked);
            &&& run(first, events).walker.buffer == run(second, events).walker.buffer
            &&& run(first, events).actions == run(second, events).actions
        }),
{
    lemma_refused_exception_changes_nothing(raws, outcomes, i, without);
    assert(first.config == second.config);
    lemma_rendering_is_repeatable(first, second, fs, path, prefix, depth);
}

} // verus!
