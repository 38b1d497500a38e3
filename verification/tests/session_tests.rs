use quick_open::history::HistorySnapshot;
use quick_open::input::{translate, InputSnapshot};
use quick_open::lister::Entry;
use quick_open::navigation::{NavigationState, VisibleRow};
use quick_open::session::{Action, Command, MyApp};

fn entry(name: &str, is_directory: bool, key: u128) -> Entry {
    Entry {
        display_name: name.to_string(),
        full_path: format!("/root/{}", name),
        is_directory,
        recency_key: key,
    }
}

fn root_listing() -> Vec<Entry> {
    vec![entry("Apple.txt", false, 3), entry("banana.txt", false, 2), entry("Cherry", true, 1)]
}

fn quiet() -> InputSnapshot {
    InputSnapshot::quiet()
}

fn state_of(app: &MyApp) -> (String, String, usize) {
    (
        app.state.current_directory.clone(),
        app.state.filter_text.clone(),
        app.state.selected_index,
    )
}

#[test]
fn a_new_session_starts_empty() {
    let app = MyApp::new("/root".to_string());
    assert_eq!(app.state, NavigationState::new("/root".to_string()));
    assert_eq!(app.history.len(), 0);
    assert_eq!(app.history.cursor(), 0);
}

#[test]
fn entering_cherry_saves_the_state_and_clears_the_filter() {
    let mut app = MyApp::new("/root".to_string());
    app.state.set_filter("an".to_string());
    app.state.selected_index = 1;
    app.push_dir("/root/Cherry".to_string());
    assert_eq!(app.state.current_directory, "/root/Cherry");
    assert_eq!(app.state.filter_text, "");
    assert_eq!(app.state.selected_index, 1);
    assert_eq!(app.history.len(), 1);
    assert_eq!(app.history.cursor(), 1);
    assert_eq!(
        app.history.back(),
        Some(HistorySnapshot {
            directory: "/root".to_string(),
            filter_text: "an".to_string(),
            selected_index: 1,
        })
    );
}

#[test]
fn as_many_steps_back_as_descents_restore_the_start() {
    let mut app = MyApp::new("/root".to_string());
    app.state.set_filter("ch".to_string());
    app.state.selected_index = 2;
    let start = state_of(&app);
    let path = ["/root/a", "/root/a/b", "/root/a/b/c", "/root/a/b/c/d"];
    for directory in path {
        app.push_dir(directory.to_string());
    }
    assert_eq!(app.state.current_directory, "/root/a/b/c/d");
    for _ in path {
        assert!(app.back());
    }
    assert_eq!(state_of(&app), start);
    assert!(!app.back());
    assert_eq!(state_of(&app), start);
}

#[test]
fn back_restores_the_filter_of_each_level() {
    let mut app = MyApp::new("/root".to_string());
    app.state.set_filter("one".to_string());
    app.push_dir("/root/a".to_string());
    app.state.set_filter("two".to_string());
    app.state.selected_index = 5;
    app.push_dir("/root/a/b".to_string());
    assert!(app.back());
    assert_eq!(state_of(&app), ("/root/a".to_string(), "two".to_string(), 5));
    assert!(app.back());
    assert_eq!(state_of(&app), ("/root".to_string(), "one".to_string(), 0));
}

#[test]
fn a_branch_leaves_no_way_forward() {
    let mut app = MyApp::new("/root".to_string());
    app.push_dir("/root/A".to_string());
    app.push_dir("/root/A/B".to_string());
    assert!(app.back());
    assert_eq!(app.state.current_directory, "/root/A");
    app.push_dir("/root/A/C".to_string());
    let before = state_of(&app);
    assert!(!app.forward());
    assert_eq!(state_of(&app), before);
    assert_eq!(app.history.len(), 2);
}

#[test]
fn forward_retakes_a_step_back() {
    let mut app = MyApp::new("/root".to_string());
    app.push_dir("/root/A".to_string());
    app.state.set_filter("x".to_string());
    app.push_dir("/root/A/B".to_string());
    assert!(app.back());
    assert!(!app.forward());
    assert!(app.back());
    assert_eq!(app.state.current_directory, "/root");
    assert!(app.forward());
    assert_eq!(state_of(&app), ("/root/A".to_string(), "x".to_string(), 0));
    assert!(!app.forward());
}

#[test]
fn entering_a_directory_row_descends() {
    let listing = root_listing();
    let mut app = MyApp::new("/root".to_string());
    let rows = app.state.visible_entries(Some("/"), &listing);
    let action = app.enter(&rows[3], false);
    assert_eq!(action, Action::Continue);
    assert_eq!(app.state.current_directory, "/root/Cherry");
    assert_eq!(app.history.len(), 1);
}

#[test]
fn entering_the_parent_row_goes_up() {
    let listing = root_listing();
    let mut app = MyApp::new("/root".to_string());
    app.state.set_filter("a".to_string());
    let rows = app.state.visible_entries(Some("/"), &listing);
    let action = app.enter(&rows[0], false);
    assert_eq!(action, Action::Continue);
    assert_eq!(state_of(&app), ("/".to_string(), "".to_string(), 0));
    assert!(app.back());
    assert_eq!(state_of(&app), ("/root".to_string(), "a".to_string(), 0));
}

#[test]
fn entering_a_file_row_asks_to_open_it() {
    let listing = root_listing();
    let mut app = MyApp::new("/root".to_string());
    app.state.set_filter("an".to_string());
    let rows = app.state.visible_entries(None, &listing);
    let before = state_of(&app);
    let action = app.enter(&rows[0], false);
    assert_eq!(action, Action::Open("/root/banana.txt".to_string()));
    assert_eq!(state_of(&app), before);
    assert_eq!(app.history.len(), 0);
}

#[test]
fn a_forced_open_does_not_descend() {
    let listing = root_listing();
    let mut app = MyApp::new("/root".to_string());
    let rows = app.state.visible_entries(None, &listing);
    let action = app.enter(&rows[2], true);
    assert_eq!(action, Action::Open("/root/Cherry".to_string()));
    assert_eq!(app.state.current_directory, "/root");
    assert_eq!(app.history.len(), 0);
}

#[test]
fn commands_drive_the_session() {
    let listing = root_listing();
    let mut app = MyApp::new("/root".to_string());
    let rows = app.state.visible_entries(Some("/"), &listing);
    assert_eq!(app.apply(Command::MoveSelection(1), &rows), Action::Continue);
    assert_eq!(app.state.selected_index, 1);
    assert_eq!(app.apply(Command::MoveSelection(10), &rows), Action::Continue);
    assert_eq!(app.state.selected_index, 3);
    assert_eq!(app.apply(Command::JumpToStart, &rows), Action::Continue);
    assert_eq!(app.state.selected_index, 0);
    assert_eq!(app.apply(Command::MoveSelection(-1), &rows), Action::Continue);
    assert_eq!(app.state.selected_index, 0);
    assert_eq!(app.apply(Command::Select(2), &rows), Action::Continue);
    assert_eq!(app.state.selected_index, 2);
    assert_eq!(app.apply(Command::Select(9), &rows), Action::Continue);
    assert_eq!(app.state.selected_index, 3);
    assert_eq!(app.apply(Command::SetFilter("ch".to_string()), &rows), Action::Continue);
    assert_eq!(app.state.filter_text, "ch");
    assert_eq!(app.apply(Command::Enter { force_open: false }, &rows), Action::Continue);
    assert_eq!(state_of(&app), ("/root/Cherry".to_string(), "".to_string(), 3));
    assert_eq!(app.apply(Command::Forward, &rows), Action::Continue);
    assert_eq!(app.state.current_directory, "/root/Cherry");
    assert_eq!(app.apply(Command::Back, &rows), Action::Continue);
    assert_eq!(state_of(&app), ("/root".to_string(), "ch".to_string(), 3));
    assert_eq!(app.apply(Command::Quit, &rows), Action::Exit);
    assert_eq!(state_of(&app), ("/root".to_string(), "ch".to_string(), 3));
}

#[test]
fn enter_on_a_file_or_with_force_opens() {
    let listing = root_listing();
    let mut app = MyApp::new("/root".to_string());
    let rows = app.state.visible_entries(None, &listing);
    assert_eq!(
        app.apply(Command::Enter { force_open: false }, &rows),
        Action::Open("/root/Apple.txt".to_string())
    );
    app.apply(Command::Select(2), &rows);
    assert_eq!(
        app.apply(Command::Enter { force_open: true }, &rows),
        Action::Open("/root/Cherry".to_string())
    );
    assert_eq!(app.state.current_directory, "/root");
}

#[test]
fn enter_without_rows_does_nothing() {
    let mut app = MyApp::new("/root".to_string());
    let rows: Vec<VisibleRow> = Vec::new();
    assert_eq!(app.apply(Command::Enter { force_open: false }, &rows), Action::Continue);
    assert_eq!(state_of(&app), ("/root".to_string(), "".to_string(), 0));
    assert_eq!(app.history.len(), 0);
}

#[test]
fn quiet_input_asks_for_nothing() {
    let input = InputSnapshot::quiet();
    assert!(!input.escape_down && !input.alt && !input.enter_pressed && !input.double_clicked);
    assert_eq!(input.edited_filter, None);
    assert_eq!(input.clicked_row, None);
    assert_eq!(translate(input), vec![]);
}

#[test]
fn keys_translate_in_order() {
    let mut input = quiet();
    input.escape_down = true;
    input.arrow_up_pressed = true;
    input.arrow_down_pressed = true;
    input.home_pressed = true;
    input.enter_pressed = true;
    input.edited_filter = Some("ab".to_string());
    assert_eq!(
        translate(input),
        vec![
            Command::Quit,
            Command::MoveSelection(-1),
            Command::MoveSelection(1),
            Command::JumpToStart,
            Command::SetFilter("ab".to_string()),
            Command::Enter { force_open: false },
        ]
    );
}

#[test]
fn history_keys_need_alt() {
    let mut input = quiet();
    input.arrow_left_pressed = true;
    input.arrow_right_pressed = true;
    assert_eq!(translate(input.clone()), vec![]);
    input.alt = true;
    assert_eq!(translate(input), vec![Command::Back, Command::Forward]);
}

#[test]
fn a_click_selects_and_enters() {
    let mut input = quiet();
    input.clicked_row = Some(2);
    assert_eq!(
        translate(input.clone()),
        vec![Command::Select(2), Command::Enter { force_open: false }]
    );
    input.double_clicked = true;
    assert_eq!(
        translate(input),
        vec![Command::Select(2), Command::Enter { force_open: true }]
    );
}

#[test]
fn alt_enter_forces_the_open() {
    let mut input = quiet();
    input.alt = true;
    input.enter_pressed = true;
    assert_eq!(translate(input), vec![Command::Enter { force_open: true }]);
}
