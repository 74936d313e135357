//! The walk through a directory tree, one listing at a time.
//!
//! The walker decides; its caller reads the disk. The walker asks for the
//! listing of one directory, the caller hands the listing back, and the
//! walker answers with the lines to print and with the next directory to
//! list, depth first, each directory before what it holds.

use vstd::prelude::*;
use crate::exclude::{ConfigModel, ExclusionConfig};
use crate::render::{
    child_prefix, denied_line, entries_view, plan_level, render_denied, render_entry, render_root,
    root_line, rows, rows_view, styled_denied_line, styled_root_line, DirectoryEntry, EntryModel,
    Line, Row, RowModel, Styles, StylesModel,
};

verus! {

/// What the caller found when it tried to list a directory.
#[derive(Debug)]
pub enum Event {
    /// The directory's children, in any order.
    Listing(Vec<DirectoryEntry>),
    /// The directory could not be listed.
    Unreadable,
}

/// An event as plain values.
pub enum EventModel {
    Listing(Seq<EntryModel>),
    Unreadable,
}

impl View for Event {
    type V = EventModel;

    open spec fn view(&self) -> EventModel {
        match self {
            Event::Listing(entries) => EventModel::Listing(entries_view(entries@)),
            Event::Unreadable => EventModel::Unreadable,
        }
    }
}

/// What the walker asks of its caller.
#[derive(Debug)]
pub enum Action {
    /// List the directory at this path and hand the result back.
    List(String),
    /// The walk is over.
    Done,
}

/// An action as plain values.
pub enum ActionModel {
    List(Seq<char>),
    Done,
}

impl View for Action {
    type V = ActionModel;

    open spec fn view(&self) -> ActionModel {
        match self {
            Action::List(path) => ActionModel::List(path@),
            Action::Done => ActionModel::Done,
        }
    }
}

/// The walker's answer to an event.
#[derive(Debug)]
pub struct Step {
    /// What to do next.
    pub action: Action,
    /// What to print now: the lines that the event brought, styled where
    /// colours are on.
    pub live: String,
}

/// The state of a walk.
#[derive(Debug)]
pub struct Walker {
    /// What is left out of the tree.
    pub config: ExclusionConfig,
    /// The styles of the live output.
    pub styles: Styles,
    /// Whether the live output is styled.
    pub use_colors: bool,
    /// The rows that are still to come, the next one at the end.
    pub pending: Vec<Row>,
    /// The prefix for the children of the directory whose listing the
    /// walker waits for; `None` where it waits for none.
    pub awaiting: Option<String>,
    /// Every line so far, without colours.
    pub buffer: String,
}

/// The state of a walk as plain values.
pub struct WalkerModel {
    pub config: ConfigModel,
    pub styles: StylesModel,
    pub use_colors: bool,
    pub pending: Seq<RowModel>,
    pub awaiting: Option<Seq<char>>,
    pub buffer: Seq<char>,
}

impl View for Walker {
    type V = WalkerModel;

    open spec fn view(&self) -> WalkerModel {
        WalkerModel {
            config: self.config@,
            styles: self.styles@,
            use_colors: self.use_colors,
            pending: rows_view(self.pending@),
            awaiting: match self.awaiting {
                Some(prefix) => Some(prefix@),
                None => None,
            },
            buffer: self.buffer@,
        }
    }
}

/// What comes of the pending rows until the walker has to ask again.
pub struct Settled {
    /// The lines of the rows that were passed, for the buffer.
    pub plain: Seq<char>,
    /// The same lines for the live output.
    pub live: Seq<char>,
    /// The rows that are still to come.
    pub pending: Seq<RowModel>,
    /// The directory at which the walker stopped, if it stopped at one.
    pub next: Option<RowModel>,
}

/// Takes the pending rows one by one, the last first, and writes the line of
/// each, up to and with the first directory; there it stops, for the
/// directory's children come before the rows that are left.
pub open spec fn settle(pending: Seq<RowModel>, styles: StylesModel, use_colors: bool) -> Settled
    decreases pending.len(),
{
    if pending.len() == 0 {
        Settled { plain: Seq::empty(), live: Seq::empty(), pending: Seq::empty(), next: None }
    } else {
        let row = pending.last();
        if row.entry.is_directory() {
            Settled {
                plain: row.line(),
                live: row.live_line(styles, use_colors),
                pending: pending.drop_last(),
                next: Some(row),
            }
        } else {
            let later = settle(pending.drop_last(), styles, use_colors);
            Settled {
                plain: row.line() + later.plain,
                live: row.live_line(styles, use_colors) + later.live,
                pending: later.pending,
                next: later.next,
            }
        }
    }
}

/// What an event brings before the pending rows are looked at.
pub struct Absorbed {
    pub plain: Seq<char>,
    pub live: Seq<char>,
    pub pending: Seq<RowModel>,
}

/// Takes in the answer for the directory that the walker waits for. An
/// unreadable directory gives one marker line under the prefix of its
/// children. A listing gives the rows of a new level, which come before all
/// that was pending. A walker that waits for nothing takes nothing in.
pub open spec fn absorb(walker: WalkerModel, event: EventModel) -> Absorbed {
    match walker.awaiting {
        None => Absorbed { plain: Seq::empty(), live: Seq::empty(), pending: walker.pending },
        Some(prefix) => match event {
            EventModel::Unreadable => Absorbed {
                plain: denied_line(prefix),
                live: if walker.use_colors {
                    styled_denied_line(walker.styles, prefix)
                } else {
                    denied_line(prefix)
                },
                pending: walker.pending,
            },
            EventModel::Listing(entries) => Absorbed {
                plain: Seq::empty(),
                live: Seq::empty(),
                pending: walker.pending + rows(entries, walker.config, prefix).reverse(),
            },
        },
    }
}

/// A step as plain values.
pub struct StepModel {
    pub walker: WalkerModel,
    pub action: ActionModel,
    pub live: Seq<char>,
}

/// The action that follows from where the walker stopped.
pub open spec fn action_for(next: Option<RowModel>) -> ActionModel {
    match next {
        Some(row) => ActionModel::List(row.entry.path),
        None => ActionModel::Done,
    }
}

/// The prefix that the walker waits with after it stopped.
pub open spec fn prefix_for(next: Option<RowModel>) -> Option<Seq<char>> {
    match next {
        Some(row) => Some(row.child_prefix()),
        None => None,
    }
}

/// One step of the walk: the event is taken in, then the pending rows are
/// written up to the next directory, whose listing the walker asks for; with
/// no directory left the walk is done.
pub open spec fn step_model(walker: WalkerModel, event: EventModel) -> StepModel {
    let taken = absorb(walker, event);
    let settled = settle(taken.pending, walker.styles, walker.use_colors);
    StepModel {
        walker: WalkerModel {
            config: walker.config,
            styles: walker.styles,
            use_colors: walker.use_colors,
            pending: settled.pending,
            awaiting: prefix_for(settled.next),
            buffer: walker.buffer + taken.plain + settled.plain,
        },
        action: action_for(settled.next),
        live: taken.live + settled.live,
    }
}

impl Walker {
    /// A walker that has written nothing and waits for nothing.
    pub fn new(config: ExclusionConfig, styles: Styles, use_colors: bool) -> (walker: Walker)
        ensures
            walker@.config == config@,
            walker@.styles == styles@,
            walker@.use_colors == use_colors,
            walker@.pending == Seq::<RowModel>::empty(),
            walker@.awaiting == None::<Seq<char>>,
            walker@.buffer == Seq::<char>::empty(),
    {
        let walker = Walker {
            config,
            styles,
            use_colors,
            pending: Vec::new(),
            awaiting: None,
            buffer: String::new(),
        };
        assert(walker@.pending =~= Seq::<RowModel>::empty());
        walker
    }

    /// Writes the line of the root directory to the buffer and returns it as
    /// it is to be printed.
    pub fn write_root(&mut self, path: &str) -> (live: String)
        ensures
            final(self)@ == (WalkerModel {
                buffer: old(self)@.buffer + root_line(path@),
                ..old(self)@
            }),
            live@ == if old(self).use_colors {
                styled_root_line(old(self)@.styles, path@)
            } else {
                root_line(path@)
            },
    {
        let line = render_root(path, &self.styles, self.use_colors);
        self.buffer.append(line.plain.as_str());
        line.live
    }

    /// Begins the walk of `directory`, whose children get the prefix
    /// `prefix`: the walker asks for the directory's listing.
    pub fn start(&mut self, directory: &str, prefix: &str) -> (action: Action)
        ensures
            final(self)@ == (WalkerModel { awaiting: Some(prefix@), ..old(self)@ }),
            action@ == ActionModel::List(directory@),
    {
        self.awaiting = Some(prefix.to_owned());
        Action::List(directory.to_owned())
    }

    /// Takes the caller's answer for the directory that the walker asked
    /// for, writes the lines that follow from it, and asks for the next
    /// directory or ends the walk.
    ///
    /// An unreadable directory gives one marker line, and the walk goes on
    /// with what was pending. A listing is filtered and sorted; its rows come
    /// next. Then the rows are written in their order up to the first
    /// directory, whose listing is asked for before anything else is written.
    pub fn step(&mut self, event: Event) -> (step: Step)
        ensures
            final(self)@ == step_model(old(self)@, event@).walker,
            step.action@ == step_model(old(self)@, event@).action,
            step.live@ == step_model(old(self)@, event@).live,
    {
        let ghost taken = absorb(old(self)@, event@);
        let mut live = String::new();
        let waiting = self.awaiting.take();
        match waiting {
            None => {},
            Some(prefix) => match event {
                Event::Unreadable => {
                    let line = render_denied(prefix.as_str(), &self.styles, self.use_colors);
                    self.buffer.append(line.plain.as_str());
                    live.append(line.live.as_str());
                },
                Event::Listing(entries) => {
                    let mut level = plan_level(entries, &self.config, prefix.as_str());
                    let ghost target = rows_view(self.pending@) + rows_view(level@).reverse();
                    while level.len() > 0
                        invariant
                            rows_view(self.pending@) + rows_view(level@).reverse() == target,
                            self.config == old(self).config,
                            self.styles == old(self).styles,
                            self.use_colors == old(self).use_colors,
                            self.buffer == old(self).buffer,
                            self.awaiting is None,
                        decreases level.len(),
                    {
                        let ghost before = rows_view(self.pending@);
                        let ghost left = rows_view(level@);
                        let row = level.pop().unwrap();
                        self.pending.push(row);
                        assert(rows_view(self.pending@) =~= before.push(row@));
                        assert(rows_view(level@) =~= left.drop_last());
                        assert(left.reverse() =~= seq![row@] + left.drop_last().reverse());
                        assert(before.push(row@) + left.drop_last().reverse() =~= before
                            + left.reverse());
                    }
                    assert(rows_view(level@).reverse() =~= Seq::<RowModel>::empty());
                    assert(rows_view(self.pending@) =~= target);
                },
            },
        }
        assert(rows_view(self.pending@) == taken.pending);
        assert(self.buffer@ =~= old(self)@.buffer + taken.plain);
        assert(live@ =~= taken.live);
        let ghost whole = settle(taken.pending, self.styles@, self.use_colors);
        let ghost buffer_before = self.buffer@;
        let ghost live_before = live@;
        assert(buffer_before + whole.plain =~= self.buffer@ + whole.plain);
        loop
            invariant
                self.config == old(self).config,
                self.styles == old(self).styles,
                self.use_colors == old(self).use_colors,
                self.awaiting is None,
                whole == settle(taken.pending, self.styles@, self.use_colors),
                whole.pending == settle(
                    rows_view(self.pending@),
                    self.styles@,
                    self.use_colors,
                ).pending,
                whole.next == settle(rows_view(self.pending@), self.styles@, self.use_colors).next,
                buffer_before + whole.plain == self.buffer@ + settle(
                    rows_view(self.pending@),
                    self.styles@,
                    self.use_colors,
                ).plain,
                live_before + whole.live == live@ + settle(
                    rows_view(self.pending@),
                    self.styles@,
                    self.use_colors,
                ).live,
                buffer_before == old(self)@.buffer + taken.plain,
                live_before == taken.live,
                taken == absorb(old(self)@, event@),
            decreases self.pending.len(),
        {
            let ghost rows_before = rows_view(self.pending@);
            let ghost here = settle(rows_before, self.styles@, self.use_colors);
            let ghost buffer_here = self.buffer@;
            let ghost live_here = live@;
            match self.pending.pop() {
                None => {
                    assert(rows_before.len() == 0);
                    assert(self.buffer@ =~= old(self)@.buffer + taken.plain + whole.plain);
                    assert(live@ =~= taken.live + whole.live);
                    assert(rows_view(self.pending@) =~= whole.pending);
                    return Step { action: Action::Done, live };
                },
                Some(row) => {
                    assert(rows_view(self.pending@) =~= rows_before.drop_last());
                    assert(rows_before.last() == row@);
                    let line = render_entry(
                        row.prefix.as_str(),
                        row.last,
                        &row.entry,
                        &self.styles,
                        self.use_colors,
                    );
                    self.buffer.append(line.plain.as_str());
                    live.append(line.live.as_str());
                    let is_directory = match row.entry.metadata {
                        Some(m) => m.is_directory,
                        None => false,
                    };
                    if is_directory {
                        assert(here.plain == row@.line());
                        assert(self.buffer@ =~= old(self)@.buffer + taken.plain + whole.plain);
                        assert(live@ =~= taken.live + whole.live);
                        self.awaiting = Some(child_prefix(row.prefix.as_str(), row.last));
                        return Step { action: Action::List(row.entry.path), live };
                    }
                    proof {
                        let later = settle(rows_before.drop_last(), self.styles@, self.use_colors);
                        assert(here.plain == row@.line() + later.plain);
                        assert(buffer_here + here.plain =~= self.buffer@ + later.plain);
                        assert(live_here + here.live =~= live@ + later.live);
                    }
                },
            }
        }
    }

    /// Every line written so far, without colours.
    pub fn buffer(&self) -> (text: &String)
        ensures
            text@ == self@.buffer,
    {
        &self.buffer
    }

    /// Ends the walk and hands out the buffer.
    pub fn into_buffer(self) -> (text: String)
        ensures
            text@ == self@.buffer,
    {
        self.buffer
    }

    /// Whether the walker waits for a listing.
    pub fn is_waiting(&self) -> (b: bool)
        ensures
            b == self@.awaiting is Some,
    {
        self.awaiting.is_some()
    }
}

} // verus!
