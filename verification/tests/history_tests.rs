use quick_open::history::{History, HistorySnapshot};

fn snap(directory: &str, filter: &str, selected: usize) -> HistorySnapshot {
    HistorySnapshot {
        directory: directory.to_string(),
        filter_text: filter.to_string(),
        selected_index: selected,
    }
}

#[test]
fn a_new_history_goes_nowhere() {
    let mut history = History::new();
    assert_eq!(history.len(), 0);
    assert_eq!(history.cursor(), 0);
    assert_eq!(history.back(), None);
    assert_eq!(history.forward(), None);
    assert_eq!(history.cursor(), 0);
}

#[test]
fn push_moves_the_cursor_behind_the_snapshot() {
    let mut history = History::new();
    history.push(snap("/a", "", 0));
    history.push(snap("/b", "x", 2));
    assert_eq!(history.len(), 2);
    assert_eq!(history.cursor(), 2);
    assert_eq!(history.forward(), None);
}

#[test]
fn back_hands_out_the_snapshots_latest_first() {
    let mut history = History::new();
    history.push(snap("/a", "", 0));
    history.push(snap("/b", "x", 2));
    assert_eq!(history.back(), Some(snap("/b", "x", 2)));
    assert_eq!(history.cursor(), 1);
    assert_eq!(history.back(), Some(snap("/a", "", 0)));
    assert_eq!(history.cursor(), 0);
    assert_eq!(history.back(), None);
    assert_eq!(history.cursor(), 0);
    assert_eq!(history.len(), 2);
}

#[test]
fn forward_stops_on_the_last_snapshot() {
    let mut history = History::new();
    history.push(snap("/a", "", 0));
    history.push(snap("/b", "x", 2));
    history.back();
    assert_eq!(history.forward(), None);
    assert_eq!(history.cursor(), 1);
    history.back();
    assert_eq!(history.forward(), Some(snap("/b", "x", 2)));
    assert_eq!(history.cursor(), 1);
    assert_eq!(history.forward(), None);
    assert_eq!(history.cursor(), 1);
}

#[test]
fn push_after_back_discards_what_was_ahead() {
    let mut history = History::new();
    history.push(snap("/a", "", 0));
    history.push(snap("/b", "", 0));
    history.push(snap("/c", "", 0));
    history.back();
    history.back();
    history.push(snap("/z", "q", 1));
    assert_eq!(history.len(), 2);
    assert_eq!(history.cursor(), 2);
    assert_eq!(history.forward(), None);
    assert_eq!(history.back(), Some(snap("/z", "q", 1)));
    assert_eq!(history.back(), Some(snap("/a", "", 0)));
}

#[test]
fn duplicate_is_equal() {
    let saved = snap("/a", "f", 3);
    assert_eq!(saved.duplicate(), saved);
}
