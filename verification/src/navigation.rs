//! The browsing state and the rows that it shows.
//!
//! The state is the directory being shown, the filter text, and the index
//! of the selected row. The rows are the parent row, where the directory
//! has a parent, followed by the entries of the listing that the filter
//! matches, in the order of the listing.
use crate::history::{HistorySnapshot, SnapshotView};
use crate::lister::Entry;
use crate::matcher::{match_name, match_runs, MatchRun};
use vstd::prelude::*;

verus! {

/// One row of the visible list.
#[derive(Debug)]
pub enum VisibleRow<'a> {
    /// The way up to the parent directory.
    Parent { path: &'a str },
    /// An entry that the filter matches, with its highlight runs.
    Child { entry: &'a Entry, runs: Vec<MatchRun> },
}

/// What a row holds, as plain values.
pub enum RowView {
    Parent { path: Seq<char> },
    Child { entry: Entry, runs: Seq<MatchRun> },
}

impl<'a> View for VisibleRow<'a> {
    type V = RowView;

    open spec fn view(&self) -> RowView {
        match *self {
            VisibleRow::Parent { path } => RowView::Parent { path: path@ },
            VisibleRow::Child { entry, runs } => RowView::Child { entry: *entry, runs: runs@ },
        }
    }
}

impl RowView {
    /// The directory or file that the row leads to.
    pub open spec fn path(self) -> Seq<char> {
        match self {
            RowView::Parent { path } => path,
            RowView::Child { entry, .. } => entry.full_path@,
        }
    }

    /// The row leads to a directory.
    pub open spec fn is_directory(self) -> bool {
        match self {
            RowView::Parent { .. } => true,
            RowView::Child { entry, .. } => entry.is_directory,
        }
    }
}

impl<'a> VisibleRow<'a> {
    /// The directory or file that the row leads to.
    pub fn path(&self) -> (path: &str)
        ensures
            path@ == self@.path(),
    {
        match self {
            VisibleRow::Parent { path } => path,
            VisibleRow::Child { entry, .. } => entry.full_path.as_str(),
        }
    }

    /// Whether the row leads to a directory. The parent row does.
    pub fn is_directory(&self) -> (answer: bool)
        ensures
            answer == self@.is_directory(),
    {
        match self {
            VisibleRow::Parent { .. } => true,
            VisibleRow::Child { entry, .. } => entry.is_directory,
        }
    }
}

/// What rows stand for in contracts.
pub open spec fn row_views(rows: Seq<VisibleRow<'_>>) -> Seq<RowView> {
    Seq::new(rows.len(), |i: int| rows[i]@)
}

/// The row of an entry under a filter, if the filter matches its name.
pub open spec fn row_of(filter: Seq<char>, entry: Entry) -> Option<RowView> {
    match match_runs(filter, entry.display_name@) {
        Some(runs) => Some(RowView::Child { entry, runs }),
        None => None,
    }
}

/// `row_of` under a given filter, as a value.
pub open spec fn row_rule(filter: Seq<char>) -> spec_fn(Entry) -> Option<RowView> {
    |entry: Entry| row_of(filter, entry)
}

/// The parent row, where there is a parent.
pub open spec fn parent_rows(parent: Option<Seq<char>>) -> Seq<RowView> {
    match parent {
        Some(path) => seq![RowView::Parent { path }],
        None => Seq::empty(),
    }
}

/// The visible list: the parent row, where there is a parent, then the
/// rows of the matching entries in the order of the listing.
pub open spec fn visible_rows(
    filter: Seq<char>,
    parent: Option<Seq<char>>,
    listing: Seq<Entry>,
) -> Seq<RowView> {
    parent_rows(parent) + listing.filter_map(row_rule(filter))
}

/// `position` brought into a list of `visible_count` rows: the nearest
/// index of the list, and 0 for an empty list.
pub open spec fn clamped(position: int, visible_count: int) -> int {
    if visible_count <= 0 || position < 0 {
        0
    } else if position >= visible_count {
        visible_count - 1
    } else {
        position
    }
}

/// The selection points at a row, or the list is empty and it is 0.
pub open spec fn selection_in_bounds(selected_index: int, visible_count: int) -> bool {
    if visible_count == 0 {
        selected_index == 0
    } else {
        0 <= selected_index < visible_count
    }
}

/// The browsing state.
#[derive(Clone, Debug, PartialEq, Eq)]
pub struct NavigationState {
    pub current_directory: String,
    pub filter_text: String,
    pub selected_index: usize,
}

impl View for NavigationState {
    type V = SnapshotView;

    open spec fn view(&self) -> SnapshotView {
        SnapshotView {
            directory: self.current_directory@,
            filter_text: self.filter_text@,
            selected_index: self.selected_index,
        }
    }
}

impl NavigationState {
    /// The state at startup: the starting directory, no filter, the first
    /// row selected.
    pub fn new(directory: String) -> (state: NavigationState)
        ensures
            state@ == (SnapshotView {
                directory: directory@,
                filter_text: Seq::<char>::empty(),
                selected_index: 0,
            }),
    {
        NavigationState { current_directory: directory, filter_text: String::new(), selected_index: 0 }
    }

    /// Replaces the filter text. Directory and selection stay.
    pub fn set_filter(&mut self, text: String)
        ensures
            final(self)@ == (SnapshotView { filter_text: text@, ..old(self)@ }),
    {
        self.filter_text = text;
    }

    /// Moves the selection by `delta` rows and brings it into the list of
    /// `visible_count` rows. It does not wrap around.
    pub fn move_selection(&mut self, delta: i64, visible_count: usize)
        ensures
            final(self)@ == (SnapshotView {
                selected_index: clamped(
                    old(self).selected_index + delta,
                    visible_count as int,
                ) as usize,
                ..old(self)@
            }),
            selection_in_bounds(final(self).selected_index as int, visible_count as int),
    {
        let moved: i128 = self.selected_index as i128 + delta as i128;
        if visible_count == 0 || moved < 0 {
            self.selected_index = 0;
        } else if moved >= visible_count as i128 {
            self.selected_index = visible_count - 1;
        } else {
            self.selected_index = moved as usize;
        }
    }

    /// Selects the first row.
    pub fn reset_selection_to_start(&mut self)
        ensures
            final(self)@ == (SnapshotView { selected_index: 0, ..old(self)@ }),
    {
        self.selected_index = 0;
    }

    /// Brings the selection into a list of `visible_count` rows.
    pub fn clamp_selection(&mut self, visible_count: usize)
        ensures
            final(self)@ == (SnapshotView {
                selected_index: clamped(
                    old(self).selected_index as int,
                    visible_count as int,
                ) as usize,
                ..old(self)@
            }),
            selection_in_bounds(final(self).selected_index as int, visible_count as int),
    {
        if visible_count == 0 {
            self.selected_index = 0;
        } else if self.selected_index >= visible_count {
            self.selected_index = visible_count - 1;
        }
    }

    /// The state as a snapshot for the history.
    pub fn snapshot(&self) -> (saved: HistorySnapshot)
        ensures
            saved@ == self@,
    {
        HistorySnapshot {
            directory: self.current_directory.clone(),
            filter_text: self.filter_text.clone(),
            selected_index: self.selected_index,
        }
    }

    /// Takes over a snapshot as it is: directory, filter and selection.
    pub fn restore(&mut self, saved: HistorySnapshot)
        ensures
            final(self)@ == saved@,
    {
        self.current_directory = saved.directory;
        self.filter_text = saved.filter_text;
        self.selected_index = saved.selected_index;
    }

    /// The rows to show for a listing of the current directory, and the
    /// selection brought into them.
    ///
    /// `parent` is the parent directory where it could be resolved. The
    /// rows are the parent row, if any, and then each entry of `listing`
    /// that the filter matches, in the order of the listing, with its runs.
    /// Whatever the selection was, afterwards it points at a row, or the
    /// list is empty and it is 0.
    pub fn visible_entries<'a>(&mut self, parent: Option<&'a str>, listing: &'a Vec<Entry>) -> (rows:
        Vec<VisibleRow<'a>>)
        ensures
            row_views(rows@) == visible_rows(
                old(self).filter_text@,
                match parent {
                    Some(path) => Some(path@),
                    None => None,
                },
                listing@,
            ),
            final(self)@ == (SnapshotView {
                selected_index: clamped(
                    old(self).selected_index as int,
                    rows@.len() as int,
                ) as usize,
                ..old(self)@
            }),
            selection_in_bounds(final(self).selected_index as int, rows@.len() as int),
    {
        let ghost filter = self.filter_text@;
        let ghost head = parent_rows(
            match parent {
                Some(path) => Some(path@),
                None => None,
            },
        );
        let mut rows: Vec<VisibleRow<'a>> = Vec::new();
        match parent {
            Some(path) => {
                rows.push(VisibleRow::Parent { path });
            },
            None => {},
        }
        assert(row_views(rows@) =~= head);
        assert(listing@.take(0).filter_map(row_rule(filter)) =~= Seq::<RowView>::empty());
        let mut at: usize = 0;
        while at < listing.len()
            invariant
                at <= listing.len(),
                filter == self.filter_text@,
                *self == *old(self),
                row_views(rows@) == head + listing@.take(at as int).filter_map(row_rule(filter)),
            decreases listing.len() - at,
        {
            let entry = &listing[at];
            let ghost shown = row_views(rows@);
            proof {
                listing@.lemma_filter_map_take_succ(row_rule(filter), at as int);
            }
            match match_name(self.filter_text.as_str(), entry.display_name.as_str()) {
                Some(runs) => {
                    rows.push(VisibleRow::Child { entry, runs });
                    assert(row_views(rows@) =~= shown.push(
                        RowView::Child { entry: *entry, runs: runs@ },
                    ));
                },
                None => {},
            }
            at += 1;
        }
        assert(listing@.take(listing@.len() as int) =~= listing@);
        self.clamp_selection(rows.len());
        rows
    }
}

} // verus!
