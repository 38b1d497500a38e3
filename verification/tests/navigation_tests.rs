use quick_open::history::HistorySnapshot;
use quick_open::lister::Entry;
use quick_open::matcher::MatchRun;
use quick_open::navigation::{NavigationState, VisibleRow};

fn entry(name: &str, is_directory: bool, key: u128) -> Entry {
    Entry {
        display_name: name.to_string(),
        full_path: format!("/root/{}", name),
        is_directory,
        recency_key: key,
    }
}

fn root_listing() -> Vec<Entry> {
    vec![entry("Apple.txt", false, 3), entry("banana.txt", false, 2), entry("Cherry", true, 1)]
}

fn child_names(rows: &[VisibleRow]) -> Vec<String> {
    let mut names = Vec::new();
    for row in rows {
        match row {
            VisibleRow::Parent { .. } => names.push("..".to_string()),
            VisibleRow::Child { entry, .. } => names.push(entry.display_name.clone()),
        }
    }
    names
}

#[test]
fn a_new_state_has_no_filter_and_selects_the_first_row() {
    let state = NavigationState::new("/root".to_string());
    assert_eq!(state.current_directory, "/root");
    assert_eq!(state.filter_text, "");
    assert_eq!(state.selected_index, 0);
}

#[test]
fn filter_an_shows_only_banana() {
    let listing = root_listing();
    let mut state = NavigationState::new("/root".to_string());
    state.set_filter("an".to_string());
    let rows = state.visible_entries(None, &listing);
    assert_eq!(rows.len(), 1);
    match &rows[0] {
        VisibleRow::Child { entry, runs } => {
            assert_eq!(entry.display_name, "banana.txt");
            assert_eq!(runs[0], MatchRun::Unmatched('b'));
            assert_eq!(runs[1], MatchRun::Matched('a'));
            assert_eq!(runs[2], MatchRun::Matched('n'));
            assert_eq!(runs[3], MatchRun::Unmatched('a'));
            assert_eq!(runs.len(), 10);
        }
        VisibleRow::Parent { .. } => panic!("the parent row was not asked for"),
    }
}

#[test]
fn the_parent_row_comes_first_and_ignores_the_filter() {
    let listing = root_listing();
    let mut state = NavigationState::new("/root".to_string());
    state.set_filter("zzz".to_string());
    let rows = state.visible_entries(Some("/"), &listing);
    assert_eq!(child_names(&rows), vec![".."]);
    assert_eq!(rows[0].path(), "/");
    assert!(rows[0].is_directory());
}

#[test]
fn rows_keep_the_order_of_the_listing() {
    let listing = root_listing();
    let mut state = NavigationState::new("/root".to_string());
    let rows = state.visible_entries(Some("/"), &listing);
    assert_eq!(child_names(&rows), vec!["..", "Apple.txt", "banana.txt", "Cherry"]);
    assert_eq!(rows[3].path(), "/root/Cherry");
    assert!(rows[3].is_directory());
    assert!(!rows[1].is_directory());
    state.set_filter("e".to_string());
    let rows = state.visible_entries(None, &listing);
    assert_eq!(child_names(&rows), vec!["Apple.txt", "Cherry"]);
}

#[test]
fn a_shrinking_list_pulls_the_selection_back() {
    let listing = root_listing();
    let mut state = NavigationState::new("/root".to_string());
    state.selected_index = 3;
    let rows = state.visible_entries(Some("/"), &listing);
    assert_eq!(rows.len(), 4);
    assert_eq!(state.selected_index, 3);
    state.set_filter("an".to_string());
    assert_eq!(state.selected_index, 3);
    let rows = state.visible_entries(Some("/"), &listing);
    assert_eq!(rows.len(), 2);
    assert_eq!(state.selected_index, 1);
    state.set_filter("nothing matches this".to_string());
    let rows = state.visible_entries(None, &listing);
    assert!(rows.is_empty());
    assert_eq!(state.selected_index, 0);
}

#[test]
fn selection_stays_in_bounds_whatever_the_filters() {
    let listing = root_listing();
    let mut state = NavigationState::new("/root".to_string());
    state.selected_index = 2;
    for filter in ["", "a", "an", "x", "", "cherry", "apple.txt", "zz"] {
        state.set_filter(filter.to_string());
        let rows = state.visible_entries(None, &listing);
        if rows.is_empty() {
            assert_eq!(state.selected_index, 0);
        } else {
            assert!(state.selected_index < rows.len());
        }
    }
}

#[test]
fn move_selection_clamps_without_wrapping() {
    let mut state = NavigationState::new("/root".to_string());
    state.move_selection(1, 4);
    assert_eq!(state.selected_index, 1);
    state.move_selection(5, 4);
    assert_eq!(state.selected_index, 3);
    state.move_selection(1, 4);
    assert_eq!(state.selected_index, 3);
    state.move_selection(-2, 4);
    assert_eq!(state.selected_index, 1);
    state.move_selection(-7, 4);
    assert_eq!(state.selected_index, 0);
    state.move_selection(-1, 4);
    assert_eq!(state.selected_index, 0);
    state.move_selection(1, 0);
    assert_eq!(state.selected_index, 0);
}

#[test]
fn move_selection_survives_extreme_values() {
    let mut state = NavigationState::new("/root".to_string());
    state.selected_index = usize::MAX;
    state.move_selection(i64::MAX, usize::MAX);
    assert_eq!(state.selected_index, usize::MAX - 1);
    state.move_selection(i64::MIN, 10);
    assert!(state.selected_index <= 9);
    state.selected_index = 0;
    state.move_selection(i64::MIN, 10);
    assert_eq!(state.selected_index, 0);
    state.move_selection(i64::MAX, 10);
    assert_eq!(state.selected_index, 9);
}

#[test]
fn reset_and_clamp() {
    let mut state = NavigationState::new("/root".to_string());
    state.selected_index = 7;
    state.clamp_selection(10);
    assert_eq!(state.selected_index, 7);
    state.clamp_selection(3);
    assert_eq!(state.selected_index, 2);
    state.clamp_selection(0);
    assert_eq!(state.selected_index, 0);
    state.selected_index = 5;
    state.reset_selection_to_start();
    assert_eq!(state.selected_index, 0);
}

#[test]
fn set_filter_touches_nothing_else() {
    let mut state = NavigationState::new("/root".to_string());
    state.selected_index = 2;
    state.set_filter("abc".to_string());
    assert_eq!(state.filter_text, "abc");
    assert_eq!(state.current_directory, "/root");
    assert_eq!(state.selected_index, 2);
}

#[test]
fn snapshot_and_restore_are_verbatim() {
    let mut state = NavigationState::new("/root".to_string());
    state.set_filter("an".to_string());
    state.selected_index = 4;
    let saved = state.snapshot();
    assert_eq!(
        saved,
        HistorySnapshot {
            directory: "/root".to_string(),
            filter_text: "an".to_string(),
            selected_index: 4,
        }
    );
    let mut other = NavigationState::new("/elsewhere".to_string());
    other.restore(saved);
    assert_eq!(other, state);
}
