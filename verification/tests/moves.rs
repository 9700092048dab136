use giff::filter::FileFilter;
use giff::moves::{
    diff_line_count, get_line_at_cursor, navigate_rebase_file, scroll_to, scroll_to_cursor,
    set_change_state, without_mark,
};
use giff::names::NameMap;
use giff::parse::FileChanges;
use giff::sources::DiffSource;
use giff::state::{App, AppMode, Change, ChangeState, Pane, Theme, ViewMode};

fn make_app(file_names: Vec<&str>, changes_for: Vec<&str>) -> App {
    let file_names: Vec<String> = file_names.into_iter().map(|s| s.to_string()).collect();
    let mut rebase_changes = NameMap::new();
    for name in &file_names {
        let changes = if changes_for.contains(&name.as_str()) {
            vec![change(1)]
        } else {
            vec![]
        };
        rebase_changes.insert(name.clone(), changes);
    }
    let file_changes: FileChanges = NameMap::new();
    App {
        file_changes,
        left_label: String::new(),
        right_label: String::new(),
        diff_source: DiffSource::Uncommitted,
        current_file_idx: 0,
        file_names,
        scroll_positions: NameMap::new(),
        focused_pane: Pane::FileList,
        view_mode: ViewMode::SideBySide,
        app_mode: AppMode::Rebase,
        rebase_changes,
        current_change_idx: 0,
        rebase_notification: None,
        show_rebase_modal: false,
        status_message: None,
        show_help_modal: false,
        theme: Theme::dark(),
        theme_cycle: vec![Theme::dark(), Theme::light()],
        theme_cycle_idx: 0,
        file_filter: FileFilter::new(&[], &[]).unwrap(),
        comment_input: None,
        cursor_line: 0,
    }
}

fn change(line_num: usize) -> Change {
    Change {
        line_num,
        content: "-old".to_string(),
        paired_content: None,
        state: ChangeState::Unselected,
        is_base: true,
        context: vec![],
        base_insert_pos: None,
    }
}

#[test]
fn navigate_forward_finds_next_file_with_changes() {
    let mut app = make_app(vec!["a.rs", "b.rs", "c.rs"], vec!["a.rs", "c.rs"]);
    app.current_file_idx = 0;
    navigate_rebase_file(&mut app, true);
    assert_eq!(app.current_file_idx, 2); // skips b.rs (empty)
}

#[test]
fn navigate_forward_wraps_around() {
    let mut app = make_app(vec!["a.rs", "b.rs", "c.rs"], vec!["a.rs", "c.rs"]);
    app.current_file_idx = 2;
    navigate_rebase_file(&mut app, true);
    assert_eq!(app.current_file_idx, 0); // wraps to a.rs
}

#[test]
fn navigate_backward_finds_previous_file_with_changes() {
    let mut app = make_app(vec!["a.rs", "b.rs", "c.rs"], vec!["a.rs", "c.rs"]);
    app.current_file_idx = 2;
    navigate_rebase_file(&mut app, false);
    assert_eq!(app.current_file_idx, 0); // skips b.rs
}

#[test]
fn navigate_backward_wraps_around() {
    let mut app = make_app(vec!["a.rs", "b.rs", "c.rs"], vec!["a.rs", "c.rs"]);
    app.current_file_idx = 0;
    navigate_rebase_file(&mut app, false);
    assert_eq!(app.current_file_idx, 2); // wraps to c.rs
}

#[test]
fn navigate_no_files_with_changes_stays_put() {
    let mut app = make_app(vec!["a.rs", "b.rs"], vec![]);
    app.current_file_idx = 0;
    navigate_rebase_file(&mut app, true);
    assert_eq!(app.current_file_idx, 0); // unchanged
}

#[test]
fn navigate_single_file_with_changes_stays_put() {
    let mut app = make_app(vec!["a.rs", "b.rs"], vec!["a.rs"]);
    app.current_file_idx = 0;
    navigate_rebase_file(&mut app, true);
    assert_eq!(app.current_file_idx, 0); // only file with changes
}

#[test]
fn navigate_empty_file_list() {
    let mut app = make_app(vec![], vec![]);
    navigate_rebase_file(&mut app, true);
    assert_eq!(app.current_file_idx, 0);
}

#[test]
fn navigate_resets_change_idx() {
    let mut app = make_app(vec!["a.rs", "b.rs"], vec!["a.rs", "b.rs"]);
    app.current_file_idx = 0;
    app.current_change_idx = 5;
    navigate_rebase_file(&mut app, true);
    assert_eq!(app.current_file_idx, 1);
    assert_eq!(app.current_change_idx, 0);
}

#[test]
fn navigate_there_and_back_returns() {
    for start in [0, 2, 3] {
        for forward in [true, false] {
            let mut app =
                make_app(vec!["a", "b", "c", "d", "e"], vec!["a", "c", "d"]);
            app.current_file_idx = start;
            navigate_rebase_file(&mut app, forward);
            assert_ne!(app.current_file_idx, start);
            navigate_rebase_file(&mut app, !forward);
            assert_eq!(app.current_file_idx, start);
        }
    }
}

#[test]
fn navigate_from_outside_the_list_comes_into_it() {
    let mut app = make_app(vec!["a", "b", "c"], vec!["a", "b", "c"]);
    app.current_file_idx = usize::MAX; // leaves 0 when divided by 3
    navigate_rebase_file(&mut app, true);
    assert_eq!(app.current_file_idx, 1);
}

#[test]
fn navigate_without_an_entry_for_a_file_skips_it() {
    let mut app = make_app(vec!["a", "b", "c"], vec!["a", "c"]);
    app.file_names[1] = "unknown".to_string();
    navigate_rebase_file(&mut app, true);
    assert_eq!(app.current_file_idx, 2);
}

#[test]
fn decision_goes_on_to_the_next_change() {
    let mut app = make_app(vec!["a", "b"], vec!["b"]);
    app.rebase_changes.insert("a".to_string(), vec![change(1), change(2), change(3)]);
    set_change_state(&mut app, ChangeState::Accepted);
    assert_eq!(app.current_change_idx, 1);
    set_change_state(&mut app, ChangeState::Rejected);
    assert_eq!(app.current_change_idx, 2);
    set_change_state(&mut app, ChangeState::Accepted);
    assert_eq!(app.current_change_idx, 2); // the last one
    let states: Vec<ChangeState> =
        app.rebase_changes.get("a").unwrap().iter().map(|c| c.state).collect();
    assert_eq!(
        states,
        vec![ChangeState::Accepted, ChangeState::Rejected, ChangeState::Accepted]
    );
    let numbers: Vec<usize> =
        app.rebase_changes.get("a").unwrap().iter().map(|c| c.line_num).collect();
    assert_eq!(numbers, vec![1, 2, 3]);
    assert_eq!(app.rebase_changes.get("b").unwrap()[0].state, ChangeState::Unselected);
}

#[test]
fn decision_without_a_change_does_nothing() {
    let mut app = make_app(vec!["a"], vec!["a"]);
    app.current_change_idx = 1;
    set_change_state(&mut app, ChangeState::Accepted);
    assert_eq!(app.rebase_changes.get("a").unwrap()[0].state, ChangeState::Unselected);
    assert_eq!(app.current_change_idx, 1);
    let mut empty = make_app(vec![], vec![]);
    set_change_state(&mut empty, ChangeState::Accepted);
    assert_eq!(empty.current_change_idx, 0);
    let mut unknown = make_app(vec!["a"], vec![]);
    unknown.file_names[0] = "b".to_string();
    set_change_state(&mut unknown, ChangeState::Accepted);
    assert!(!unknown.rebase_changes.contains_key("b"));
}

fn scroll(app: &App, file: &str) -> Option<usize> {
    app.scroll_positions.get(file).copied()
}

#[test]
fn cursor_is_scrolled_into_view() {
    let mut app = make_app(vec!["a"], vec![]);
    app.cursor_line = 9;
    scroll_to_cursor(&mut app, 10);
    assert_eq!(scroll(&app, "a"), None); // already there
    app.cursor_line = 10;
    scroll_to_cursor(&mut app, 10);
    assert_eq!(scroll(&app, "a"), Some(1));
    app.cursor_line = 30;
    scroll_to_cursor(&mut app, 10);
    assert_eq!(scroll(&app, "a"), Some(21));
    app.cursor_line = 25;
    scroll_to_cursor(&mut app, 10);
    assert_eq!(scroll(&app, "a"), Some(21));
    app.cursor_line = 4;
    scroll_to_cursor(&mut app, 10);
    assert_eq!(scroll(&app, "a"), Some(4));
    // On a screen without room the line after the cursor comes first
    scroll_to_cursor(&mut app, 0);
    assert_eq!(scroll(&app, "a"), Some(5));
}

#[test]
fn scrolling_far_down_does_not_overflow() {
    let mut app = make_app(vec!["a"], vec![]);
    scroll_to(&mut app, usize::MAX);
    app.cursor_line = 7;
    scroll_to_cursor(&mut app, 10);
    assert_eq!(scroll(&app, "a"), Some(7));
    let mut empty = make_app(vec![], vec![]);
    scroll_to(&mut empty, 3);
    scroll_to_cursor(&mut empty, 3);
    assert!(empty.scroll_positions.entries().is_empty());
}

#[test]
fn line_count_follows_the_view() {
    let mut app = make_app(vec!["a", "b"], vec![]);
    assert_eq!(diff_line_count(&app, 5, 8), 0); // no diff for the file
    app.file_changes.insert("a".to_string(), (vec![], vec![]));
    assert_eq!(diff_line_count(&app, 5, 8), 5);
    app.view_mode = ViewMode::Unified;
    assert_eq!(diff_line_count(&app, 5, 8), 8);
    app.current_file_idx = 7;
    assert_eq!(diff_line_count(&app, 5, 8), 0);
}

#[test]
fn marks_are_taken_off_once() {
    assert_eq!(without_mark("+a"), "a");
    assert_eq!(without_mark("-+a"), "+a");
    assert_eq!(without_mark("  a"), " a");
    assert_eq!(without_mark("a"), "a");
    assert_eq!(without_mark(""), "");
}

#[test]
fn line_at_cursor_skips_gaps() {
    let mut app = make_app(vec!["a"], vec![]);
    app.file_changes.insert("a".to_string(), (vec![], vec![]));
    let head = vec![
        (0, "gap".to_string()),
        (3, "+three".to_string()),
        (0, "".to_string()),
        (4, " four".to_string()),
        (0, "".to_string()),
    ];
    let unified = vec![(8, "-eight".to_string())];
    let at = |app: &App| get_line_at_cursor(app, &head, &unified);
    assert_eq!(at(&app), Some(("a".to_string(), 3, "three".to_string())));
    app.cursor_line = 2;
    assert_eq!(at(&app), Some(("a".to_string(), 4, "four".to_string())));
    app.cursor_line = 4;
    assert_eq!(at(&app), None);
    app.cursor_line = 99;
    assert_eq!(at(&app), None);
    app.cursor_line = 0;
    app.view_mode = ViewMode::Unified;
    assert_eq!(at(&app), Some(("a".to_string(), 8, "eight".to_string())));
    app.file_names[0] = "b".to_string();
    assert_eq!(at(&app), None);
}
