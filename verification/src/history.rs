//! Back/forward history: saved states and a cursor among them.
//!
//! The history is a timeline. Position `k` below the length is the saved
//! state `k`; the position at the length is the live state, which no
//! snapshot holds yet. Entering a directory saves the state that is left
//! and cuts off everything that was ahead of it.
use vstd::prelude::*;

verus! {

/// A saved (directory, filter, selection) triple.
#[derive(Clone, Debug, PartialEq, Eq)]
pub struct HistorySnapshot {
    pub directory: String,
    pub filter_text: String,
    pub selected_index: usize,
}

/// What a snapshot holds, as plain values.
pub struct SnapshotView {
    pub directory: Seq<char>,
    pub filter_text: Seq<char>,
    pub selected_index: usize,
}

impl View for HistorySnapshot {
    type V = SnapshotView;

    open spec fn view(&self) -> SnapshotView {
        SnapshotView {
            directory: self.directory@,
            filter_text: self.filter_text@,
            selected_index: self.selected_index,
        }
    }
}

impl HistorySnapshot {
    /// A snapshot with the same contents.
    pub fn duplicate(&self) -> (copy: HistorySnapshot)
        ensures
            copy == *self,
    {
        HistorySnapshot {
            directory: self.directory.clone(),
            filter_text: self.filter_text.clone(),
            selected_index: self.selected_index,
        }
    }
}

/// The saved states and the cursor, as plain values.
pub struct HistoryView {
    pub snapshots: Seq<SnapshotView>,
    pub cursor: nat,
}

impl HistoryView {
    /// The cursor stands on a snapshot or just behind the last one.
    pub open spec fn wf(self) -> bool {
        self.cursor <= self.snapshots.len()
    }

    /// The history after `snapshot` was saved: what stood at or behind the
    /// cursor is gone, the snapshot is last, and the cursor stands behind it.
    pub open spec fn push(self, snapshot: SnapshotView) -> HistoryView {
        HistoryView {
            snapshots: self.snapshots.take(self.cursor as int).push(snapshot),
            cursor: self.cursor + 1,
        }
    }

    pub open spec fn can_go_back(self) -> bool {
        self.cursor > 0
    }

    pub open spec fn can_go_forward(self) -> bool {
        self.cursor + 1 < self.snapshots.len()
    }

    /// The history after one step back; unchanged where there is none.
    pub open spec fn back(self) -> HistoryView {
        if self.can_go_back() {
            HistoryView { snapshots: self.snapshots, cursor: (self.cursor - 1) as nat }
        } else {
            self
        }
    }

    /// The history after one step forward; unchanged where there is none.
    pub open spec fn forward(self) -> HistoryView {
        if self.can_go_forward() {
            HistoryView { snapshots: self.snapshots, cursor: self.cursor + 1 }
        } else {
            self
        }
    }

    /// The snapshot under the cursor.
    pub open spec fn current(self) -> SnapshotView
        recommends
            self.cursor < self.snapshots.len(),
    {
        self.snapshots[self.cursor as int]
    }
}

/// What a vector of snapshots holds.
pub open spec fn snapshot_views(snapshots: Seq<HistorySnapshot>) -> Seq<SnapshotView> {
    Seq::new(snapshots.len(), |i: int| snapshots[i]@)
}

/// The saved states of a session and the cursor among them.
pub struct History {
    snapshots: Vec<HistorySnapshot>,
    cursor: usize,
}

impl View for History {
    type V = HistoryView;

    closed spec fn view(&self) -> HistoryView {
        HistoryView { snapshots: snapshot_views(self.snapshots@), cursor: self.cursor as nat }
    }
}

impl History {
    /// The cursor stands on a snapshot or just behind the last one.
    pub open spec fn wf(&self) -> bool {
        self@.wf()
    }

    /// A history with nothing saved.
    pub fn new() -> (history: History)
        ensures
            history@.snapshots.len() == 0,
            history@.cursor == 0,
            history.wf(),
    {
        History { snapshots: Vec::new(), cursor: 0 }
    }

    /// The number of saved states.
    pub fn len(&self) -> (count: usize)
        ensures
            count == self@.snapshots.len(),
    {
        self.snapshots.len()
    }

    /// The position of the cursor on the timeline.
    pub fn cursor(&self) -> (cursor: usize)
        ensures
            cursor == self@.cursor,
    {
        self.cursor
    }

    /// Saves `snapshot` as the state that was left: snapshots at or behind
    /// the cursor are discarded, the snapshot becomes the last one, and the
    /// cursor moves behind it.
    pub fn push(&mut self, snapshot: HistorySnapshot)
        requires
            old(self).wf(),
        ensures
            final(self)@ == old(self)@.push(snapshot@),
            final(self).wf(),
    {
        let ghost before = self.snapshots@;
        self.snapshots.truncate(self.cursor);
        self.snapshots.push(snapshot);
        self.cursor = self.snapshots.len();
        proof {
            assert(snapshot_views(self.snapshots@) =~= snapshot_views(before).take(
                old(self).cursor as int,
            ).push(snapshot@));
        }
    }

    /// Steps back: the cursor moves one position towards the start and the
    /// snapshot there is handed out. At the start nothing happens.
    pub fn back(&mut self) -> (restored: Option<HistorySnapshot>)
        requires
            old(self).wf(),
        ensures
            final(self)@ == old(self)@.back(),
            final(self).wf(),
            match restored {
                Some(snapshot) => old(self)@.can_go_back() && snapshot@
                    == old(self)@.back().current(),
                None => !old(self)@.can_go_back(),
            },
    {
        if self.cursor > 0 {
            self.cursor = self.cursor - 1;
            Some(self.snapshots[self.cursor].duplicate())
        } else {
            None
        }
    }

    /// Steps forward: the cursor moves one position towards the end and the
    /// snapshot there is handed out. On the last snapshot, or behind it,
    /// nothing happens.
    pub fn forward(&mut self) -> (restored: Option<HistorySnapshot>)
        requires
            old(self).wf(),
        ensures
            final(self)@ == old(self)@.forward(),
            final(self).wf(),
            match restored {
                Some(snapshot) => old(self)@.can_go_forward() && snapshot@
                    == old(self)@.forward().current(),
                None => !old(self)@.can_go_forward(),
            },
    {
        if self.cursor < self.snapshots.len() && self.cursor + 1 < self.snapshots.len() {
            self.cursor = self.cursor + 1;
            Some(self.snapshots[self.cursor].duplicate())
        } else {
            None
        }
    }
}

} // verus!
