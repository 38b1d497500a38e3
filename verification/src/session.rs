//! A browsing session: the state, its history, and the commands that drive
//! them.
//!
//! The session decides; it does not act. Each command gives the next
//! session and an action for the program around it: go on, hand a file to
//! the operating system and leave, or leave.
use crate::history::{History, HistorySnapshot, HistoryView, SnapshotView};
use crate::navigation::{clamped, row_views, NavigationState, RowView, VisibleRow};
use vstd::prelude::*;

verus! {

/// What the user asked for.
#[derive(Clone, Debug, PartialEq, Eq)]
pub enum Command {
    /// Replace the filter text.
    SetFilter(String),
    /// Move the selection by so many rows.
    MoveSelection(i64),
    /// Select the first row.
    JumpToStart,
    /// Select the row with this index.
    Select(usize),
    /// Enter the selected row: descend into a directory, open a file. With
    /// `force_open` a directory is opened like a file.
    Enter { force_open: bool },
    /// Step back in the history.
    Back,
    /// Step forward in the history.
    Forward,
    /// Leave.
    Quit,
}

/// What the program around the session is to do next.
#[derive(Clone, Debug, PartialEq, Eq)]
pub enum Action {
    /// Go on with the next cycle.
    Continue,
    /// Hand this path to the operating system's opener, then leave.
    Open(String),
    /// Leave.
    Exit,
}

/// An action, as plain values.
pub enum ActionView {
    Continue,
    Open(Seq<char>),
    Exit,
}

impl View for Action {
    type V = ActionView;

    open spec fn view(&self) -> ActionView {
        match *self {
            Action::Continue => ActionView::Continue,
            Action::Open(path) => ActionView::Open(path@),
            Action::Exit => ActionView::Exit,
        }
    }
}

/// A session, as plain values.
pub struct SessionView {
    pub state: SnapshotView,
    pub history: HistoryView,
}

impl SessionView {
    /// The session with another selection.
    pub open spec fn select(self, selected_index: int) -> SessionView {
        SessionView {
            state: SnapshotView { selected_index: selected_index as usize, ..self.state },
            history: self.history,
        }
    }

    /// The session after descending into `directory`: the state that is
    /// left is saved, the filter is empty, the selection is carried over.
    pub open spec fn enter(self, directory: Seq<char>) -> SessionView {
        SessionView {
            state: SnapshotView {
                directory,
                filter_text: Seq::empty(),
                selected_index: self.state.selected_index,
            },
            history: self.history.push(self.state),
        }
    }

    /// The session after one step back: the snapshot there becomes the
    /// state. Unchanged where there is no step back.
    pub open spec fn back(self) -> SessionView {
        if self.history.can_go_back() {
            SessionView { state: self.history.back().current(), history: self.history.back() }
        } else {
            self
        }
    }

    /// The session after one step forward: the snapshot there becomes the
    /// state. Unchanged where there is no step forward.
    pub open spec fn forward(self) -> SessionView {
        if self.history.can_go_forward() {
            SessionView {
                state: self.history.forward().current(),
                history: self.history.forward(),
            }
        } else {
            self
        }
    }

    /// The session and the action after entering the selected row of
    /// `rows`. Without such a row nothing happens.
    pub open spec fn activate(self, rows: Seq<RowView>, force_open: bool) -> (
        SessionView,
        ActionView,
    ) {
        if self.state.selected_index < rows.len() {
            let row = rows[self.state.selected_index as int];
            if row.is_directory() && !force_open {
                (self.enter(row.path()), ActionView::Continue)
            } else {
                (self, ActionView::Open(row.path()))
            }
        } else {
            (self, ActionView::Continue)
        }
    }

    /// The session and the action after `command`, with `rows` showing.
    pub open spec fn step(self, command: Command, rows: Seq<RowView>) -> (SessionView, ActionView) {
        match command {
            Command::SetFilter(text) => (
                SessionView {
                    state: SnapshotView { filter_text: text@, ..self.state },
                    history: self.history,
                },
                ActionView::Continue,
            ),
            Command::MoveSelection(delta) => (
                self.select(clamped(self.state.selected_index + delta, rows.len() as int)),
                ActionView::Continue,
            ),
            Command::JumpToStart => (self.select(0), ActionView::Continue),
            Command::Select(row) => (
                self.select(clamped(row as int, rows.len() as int)),
                ActionView::Continue,
            ),
            Command::Enter { force_open } => self.activate(rows, force_open),
            Command::Back => (self.back(), ActionView::Continue),
            Command::Forward => (self.forward(), ActionView::Continue),
            Command::Quit => (self, ActionView::Exit),
        }
    }

    /// The session after descending into each of `directories` in turn.
    pub open spec fn enter_all(self, directories: Seq<Seq<char>>) -> SessionView
        decreases directories.len(),
    {
        if directories.len() == 0 {
            self
        } else {
            self.enter_all(directories.drop_last()).enter(directories.last())
        }
    }

    /// The session after `count` steps back.
    pub open spec fn back_times(self, count: nat) -> SessionView
        decreases count,
    {
        if count == 0 {
            self
        } else {
            self.back().back_times((count - 1) as nat)
        }
    }
}

/// Steps back read only what lies before the cursor: two histories that
/// agree there lead back to the same states.
proof fn lemma_back_reads_the_past(first: SessionView, second: SessionView, count: nat)
    requires
        first.history.wf(),
        second.history.wf(),
        first.state == second.state,
        first.history.cursor == second.history.cursor,
        first.history.snapshots.take(first.history.cursor as int)
            == second.history.snapshots.take(second.history.cursor as int),
        count <= first.history.cursor,
    ensures
        first.back_times(count).state == second.back_times(count).state,
        first.back_times(count).history.cursor == first.history.cursor - count,
    decreases count,
{
    if count > 0 {
        let cursor = first.history.cursor as int;
        let past_first = first.history.snapshots.take(cursor);
        let past_second = second.history.snapshots.take(cursor);
        assert(first.history.snapshots[cursor - 1] == past_first[cursor - 1]);
        assert(second.history.snapshots[cursor - 1] == past_second[cursor - 1]);
        assert(first.back().history.snapshots.take(cursor - 1) =~= past_first.take(cursor - 1));
        assert(second.back().history.snapshots.take(cursor - 1) =~= past_second.take(cursor - 1));
        lemma_back_reads_the_past(first.back(), second.back(), (count - 1) as nat);
    }
}

/// Descending keeps the history well formed and moves the cursor on by one
/// for each directory.
proof fn lemma_enter_all_advances(session: SessionView, directories: Seq<Seq<char>>)
    requires
        session.history.wf(),
    ensures
        session.enter_all(directories).history.wf(),
        session.enter_all(directories).history.cursor == session.history.cursor
            + directories.len(),
    decreases directories.len(),
{
    if directories.len() > 0 {
        lemma_enter_all_advances(session, directories.drop_last());
    }
}

/// Round trip: after descending into any directories, one after the other,
/// as many steps back lead to the directory, the filter and the selection
/// from which the first descent started.
pub proof fn lemma_enter_then_back_round_trip(session: SessionView, directories: Seq<Seq<char>>)
    requires
        session.history.wf(),
    ensures
        session.enter_all(directories).back_times(directories.len()).state == session.state,
    decreases directories.len(),
{
    if directories.len() > 0 {
        let earlier = directories.drop_last();
        let before = session.enter_all(earlier);
        let after = before.enter(directories.last());
        lemma_enter_all_advances(session, earlier);
        lemma_enter_then_back_round_trip(session, earlier);
        let cursor = before.history.cursor as int;
        assert(after.history.snapshots[cursor] == before.state);
        assert(after.back().state == before.state);
        assert(after.back().history.snapshots.take(cursor) =~= before.history.snapshots.take(
            cursor,
        ));
        lemma_back_reads_the_past(after.back(), before, earlier.len());
    }
}

/// Branching discards what was ahead: directly after a descent there is no
/// step forward, whatever was entered and left before.
pub proof fn lemma_enter_discards_forward(session: SessionView, directory: Seq<char>)
    requires
        session.history.wf(),
    ensures
        !session.enter(directory).history.can_go_forward(),
        session.enter(directory).forward() == session.enter(directory),
{
}

/// Descending into `first`, then into `second`, stepping back and
/// descending into `third` leaves no step forward: `second` is out of reach.
pub proof fn lemma_branch_discards_forward(
    session: SessionView,
    first: Seq<char>,
    second: Seq<char>,
    third: Seq<char>,
)
    requires
        session.history.wf(),
    ensures
        session.enter(first).enter(second).back().state.directory == first,
        session.enter(first).enter(second).back().enter(third).forward() == session.enter(
            first,
        ).enter(second).back().enter(third),
{
}

/// A browsing session: the state and its history.
pub struct MyApp {
    pub state: NavigationState,
    pub history: History,
}

impl View for MyApp {
    type V = SessionView;

    open spec fn view(&self) -> SessionView {
        SessionView { state: self.state@, history: self.history@ }
    }
}

impl MyApp {
    /// The history is well formed.
    pub open spec fn wf(&self) -> bool {
        self.history.wf()
    }

    /// The session at startup: the starting directory, no filter, the first
    /// row selected, nothing saved.
    pub fn new(directory: String) -> (app: MyApp)
        ensures
            app.wf(),
            app@.state == (SnapshotView {
                directory: directory@,
                filter_text: Seq::<char>::empty(),
                selected_index: 0,
            }),
            app@.history.snapshots.len() == 0,
            app@.history.cursor == 0,
    {
        MyApp { state: NavigationState::new(directory), history: History::new() }
    }

    /// Descends into `path`: the state that is left goes to the history,
    /// which loses what was ahead of it; the filter becomes empty; the
    /// selection is carried over.
    pub fn push_dir(&mut self, path: String)
        requires
            old(self).wf(),
        ensures
            final(self).wf(),
            final(self)@ == old(self)@.enter(path@),
    {
        let mut directory = path;
        let mut filter_text = String::new();
        core::mem::swap(&mut self.state.current_directory, &mut directory);
        core::mem::swap(&mut self.state.filter_text, &mut filter_text);
        self.history.push(
            HistorySnapshot { directory, filter_text, selected_index: self.state.selected_index },
        );
    }

    /// Steps back in the history and takes over the snapshot there as it
    /// is. Says whether there was a step to take.
    pub fn back(&mut self) -> (moved: bool)
        requires
            old(self).wf(),
        ensures
            final(self).wf(),
            final(self)@ == old(self)@.back(),
            moved == old(self)@.history.can_go_back(),
    {
        match self.history.back() {
            Some(saved) => {
                self.state.restore(saved);
                true
            },
            None => false,
        }
    }

    /// Steps forward in the history and takes over the snapshot there as
    /// it is. Says whether there was a step to take.
    pub fn forward(&mut self) -> (moved: bool)
        requires
            old(self).wf(),
        ensures
            final(self).wf(),
            final(self)@ == old(self)@.forward(),
            moved == old(self)@.history.can_go_forward(),
    {
        match self.history.forward() {
            Some(saved) => {
                self.state.restore(saved);
                true
            },
            None => false,
        }
    }

    /// Enters a row. A directory, the parent row included, is descended
    /// into. A file, or a directory with `force_open`, leaves the session
    /// as it is and asks for the path to be opened.
    pub fn enter(&mut self, row: &VisibleRow<'_>, force_open: bool) -> (action: Action)
        requires
            old(self).wf(),
        ensures
            final(self).wf(),
            row@.is_directory() && !force_open ==> final(self)@ == old(self)@.enter(row@.path())
                && action@ == ActionView::Continue,
            !(row@.is_directory() && !force_open) ==> final(self)@ == old(self)@ && action@
                == ActionView::Open(row@.path()),
    {
        if row.is_directory() && !force_open {
            self.push_dir(row.path().to_owned());
            Action::Continue
        } else {
            Action::Open(row.path().to_owned())
        }
    }

    /// Applies one command, with `rows` being the rows that are showing.
    pub fn apply(&mut self, command: Command, rows: &Vec<VisibleRow<'_>>) -> (action: Action)
        requires
            old(self).wf(),
        ensures
            final(self).wf(),
            (final(self)@, action@) == old(self)@.step(command, row_views(rows@)),
    {
        match command {
            Command::SetFilter(text) => {
                self.state.set_filter(text);
                Action::Continue
            },
            Command::MoveSelection(delta) => {
                self.state.move_selection(delta, rows.len());
                Action::Continue
            },
            Command::JumpToStart => {
                self.state.reset_selection_to_start();
                Action::Continue
            },
            Command::Select(row) => {
                self.state.selected_index = row;
                self.state.clamp_selection(rows.len());
                Action::Continue
            },
            Command::Enter { force_open } => {
                if self.state.selected_index < rows.len() {
                    self.enter(&rows[self.state.selected_index], force_open)
                } else {
                    Action::Continue
                }
            },
            Command::Back => {
                self.back();
                Action::Continue
            },
            Command::Forward => {
                self.forward();
                Action::Continue
            },
            Command::Quit => Action::Exit,
        }
    }
}

} // verus!
