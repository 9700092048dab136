use giff::filter::FileFilter;
use giff::input::{page_height, Action, Key, Layout, Mouse, MouseKind, Size};
use giff::keys::{accepts_key, handle_key, needs_layout};
use giff::mouse::handle_mouse;
use giff::names::NameMap;
use giff::outcome::{finish_comment, finish_rebase, RebaseOutcome};
use giff::sources::DiffSource;
use giff::state::{App, AppMode, Change, ChangeState, CommentInput, Pane, Theme, ViewMode};

fn make_app(files: &[&str]) -> App {
    let mut file_changes = NameMap::new();
    for file in files {
        file_changes.insert(file.to_string(), (vec![], vec![]));
    }
    App {
        file_changes,
        left_label: String::new(),
        right_label: String::new(),
        diff_source: DiffSource::Uncommitted,
        current_file_idx: 0,
        file_names: files.iter().map(|s| s.to_string()).collect(),
        scroll_positions: NameMap::new(),
        focused_pane: Pane::FileList,
        view_mode: ViewMode::SideBySide,
        app_mode: AppMode::Diff,
        rebase_changes: NameMap::new(),
        current_change_idx: 0,
        rebase_notification: None,
        show_rebase_modal: false,
        status_message: None,
        show_help_modal: false,
        theme: Theme::dark(),
        theme_cycle: vec![Theme::dark(), Theme::light()],
        theme_cycle_idx: 0,
        file_filter: FileFilter::new(&[], &[]).unwrap(),
        comment_input: None,
        cursor_line: 0,
    }
}

fn change(line_num: usize) -> Change {
    Change {
        line_num,
        content: "+new".to_string(),
        paired_content: None,
        state: ChangeState::Unselected,
        is_base: false,
        context: vec![],
        base_insert_pos: None,
    }
}

/// A screen with ten lines for a diff of thirty lines side by side and forty
/// unified.
fn layout() -> Layout {
    Layout {
        height: 16,
        aligned_count: 30,
        unified_count: 40,
        aligned_head: vec![(0, String::new()), (5, "+five".to_string())],
        unified_lines: vec![(7, "-seven".to_string())],
    }
}

fn press(app: &mut App, key: Key) -> Action {
    assert!(accepts_key(app, key, &layout()));
    handle_key(app, key, &layout())
}

fn ch(c: char) -> Key {
    Key::Char(c)
}

#[test]
fn page_is_what_the_frame_leaves() {
    assert_eq!(page_height(16), 10);
    assert_eq!(page_height(6), 0);
    assert_eq!(page_height(3), 0);
}

#[test]
fn leaving_a_diff_ends_the_program() {
    for key in [ch('q'), Key::Esc] {
        assert!(matches!(press(&mut make_app(&["a"]), key), Action::Quit(false)));
    }
}

#[test]
fn leaving_the_choice_of_changes_returns_to_the_diff() {
    for key in [ch('q'), Key::Esc] {
        let mut app = make_app(&["a"]);
        app.app_mode = AppMode::Rebase;
        assert!(matches!(press(&mut app, key), Action::Continue));
        assert_eq!(app.app_mode, AppMode::Diff);
    }
}

#[test]
fn choice_of_changes_is_prepared() {
    let mut app = make_app(&["a"]);
    assert!(matches!(press(&mut app, ch('r')), Action::PrepareRebase));
    assert_eq!(app.app_mode, AppMode::Rebase);
    // A second press means nothing
    assert!(matches!(press(&mut app, ch('r')), Action::Continue));
}

#[test]
fn keys_move_in_the_file_list() {
    let mut app = make_app(&["a", "b", "c"]);
    app.cursor_line = 9;
    press(&mut app, ch('j'));
    assert_eq!((app.current_file_idx, app.cursor_line), (1, 0));
    app.cursor_line = 9;
    press(&mut app, Key::Down);
    press(&mut app, ch('j'));
    assert_eq!((app.current_file_idx, app.cursor_line), (2, 0)); // the last one
    app.cursor_line = 9;
    press(&mut app, ch('k'));
    assert_eq!((app.current_file_idx, app.cursor_line), (1, 0));
    press(&mut app, Key::Up);
    press(&mut app, Key::Up);
    assert_eq!(app.current_file_idx, 0);
    press(&mut app, Key::PageDown);
    assert_eq!(app.current_file_idx, 2);
    press(&mut app, Key::PageUp);
    assert_eq!(app.current_file_idx, 0);
    press(&mut app, Key::End);
    assert_eq!(app.current_file_idx, 2);
    press(&mut app, Key::Home);
    assert_eq!(app.current_file_idx, 0);
}

#[test]
fn keys_leave_an_empty_file_list() {
    let mut app = make_app(&[]);
    for key in [ch('j'), ch('k'), Key::PageDown, Key::PageUp, Key::Home, Key::End] {
        press(&mut app, key);
        assert_eq!(app.current_file_idx, 0);
    }
}

#[test]
fn keys_move_in_the_content() {
    let mut app = make_app(&["a"]);
    app.focused_pane = Pane::DiffContent;
    press(&mut app, ch('j'));
    assert_eq!(app.cursor_line, 1);
    assert!(app.scroll_positions.get("a").is_none());
    press(&mut app, Key::PageDown);
    assert_eq!(app.cursor_line, 11);
    assert_eq!(app.scroll_positions.get("a"), Some(&2));
    press(&mut app, Key::PageDown);
    press(&mut app, Key::PageDown);
    assert_eq!(app.cursor_line, 29);
    press(&mut app, ch('j'));
    assert_eq!(app.cursor_line, 29); // the last line
    assert_eq!(app.scroll_positions.get("a"), Some(&20));
    press(&mut app, ch('k'));
    assert_eq!(app.cursor_line, 28);
    press(&mut app, Key::PageUp);
    assert_eq!(app.cursor_line, 18);
    assert_eq!(app.scroll_positions.get("a"), Some(&18));
    press(&mut app, Key::End);
    assert_eq!(app.cursor_line, 29);
    assert_eq!(app.scroll_positions.get("a"), Some(&usize::MAX));
    press(&mut app, Key::Home);
    assert_eq!(app.cursor_line, 0);
    assert_eq!(app.scroll_positions.get("a"), Some(&0));
    press(&mut app, Key::Up);
    assert_eq!(app.cursor_line, 0);
    app.view_mode = ViewMode::Unified;
    press(&mut app, Key::End);
    assert_eq!(app.cursor_line, 39);
}

#[test]
fn keys_leave_content_that_is_not_there() {
    let mut app = make_app(&[]);
    app.focused_pane = Pane::DiffContent;
    for key in [ch('j'), ch('k'), Key::PageDown, Key::PageUp, Key::Home, Key::End] {
        press(&mut app, key);
        assert_eq!(app.cursor_line, 0);
    }
    assert!(app.scroll_positions.entries().is_empty());
}

#[test]
fn panes_and_views_switch_back_and_forth() {
    let mut app = make_app(&["a"]);
    press(&mut app, Key::Tab);
    assert_eq!(app.focused_pane, Pane::DiffContent);
    press(&mut app, Key::Tab);
    assert_eq!(app.focused_pane, Pane::FileList);
    press(&mut app, ch('l'));
    assert_eq!(app.focused_pane, Pane::DiffContent);
    press(&mut app, Key::Left);
    assert_eq!(app.focused_pane, Pane::FileList);
    press(&mut app, Key::Right);
    press(&mut app, ch('h'));
    assert_eq!(app.focused_pane, Pane::FileList);
    press(&mut app, ch('u'));
    assert_eq!(app.view_mode, ViewMode::Unified);
    press(&mut app, ch('u'));
    assert_eq!(app.view_mode, ViewMode::SideBySide);
    // None of them means anything while changes are chosen
    app.app_mode = AppMode::Rebase;
    for key in [Key::Tab, ch('l'), ch('u')] {
        press(&mut app, key);
    }
    assert_eq!(app.focused_pane, Pane::FileList);
    assert_eq!(app.view_mode, ViewMode::SideBySide);
}

#[test]
fn themes_go_round() {
    let mut app = make_app(&["a"]);
    press(&mut app, ch('t'));
    assert_eq!((app.theme_cycle_idx, app.theme.name.as_str()), (1, "light"));
    press(&mut app, ch('t'));
    assert_eq!((app.theme_cycle_idx, app.theme.name.as_str()), (0, "dark"));
    app.theme_cycle_idx = usize::MAX; // odd
    press(&mut app, ch('t'));
    assert_eq!((app.theme_cycle_idx, app.theme.name.as_str()), (0, "dark"));
    app.theme_cycle = vec![];
    app.theme_cycle_idx = 5;
    press(&mut app, ch('t'));
    assert_eq!((app.theme_cycle_idx, app.theme.name.as_str()), (5, "dark"));
}

#[test]
fn keys_move_among_changes() {
    let mut app = make_app(&["a", "b"]);
    app.app_mode = AppMode::Rebase;
    app.rebase_changes.insert("a".to_string(), (0..15).map(change).collect());
    app.rebase_changes.insert("b".to_string(), vec![change(1)]);
    press(&mut app, ch('j'));
    press(&mut app, Key::Down);
    assert_eq!(app.current_change_idx, 2);
    press(&mut app, ch('k'));
    assert_eq!(app.current_change_idx, 1);
    press(&mut app, Key::PageDown);
    assert_eq!(app.current_change_idx, 11);
    press(&mut app, Key::PageDown);
    press(&mut app, ch('j'));
    assert_eq!(app.current_change_idx, 14);
    press(&mut app, Key::PageUp);
    assert_eq!(app.current_change_idx, 4);
    press(&mut app, Key::Home);
    press(&mut app, Key::Up);
    assert_eq!(app.current_change_idx, 0);
    press(&mut app, Key::End);
    assert_eq!(app.current_change_idx, 14);
    press(&mut app, ch('n'));
    assert_eq!((app.current_file_idx, app.current_change_idx), (1, 0));
    press(&mut app, ch('p'));
    assert_eq!((app.current_file_idx, app.current_change_idx), (0, 0));
    press(&mut app, ch('a'));
    press(&mut app, ch('x'));
    let changes = app.rebase_changes.get("a").unwrap();
    assert_eq!(changes[0].state, ChangeState::Accepted);
    assert_eq!(changes[1].state, ChangeState::Rejected);
    assert_eq!(changes[2].state, ChangeState::Unselected);
    assert!(matches!(press(&mut app, ch('c')), Action::CommitChanges));
    assert_eq!(app.app_mode, AppMode::Rebase);
}

#[test]
fn decisions_mean_nothing_while_reading() {
    let mut app = make_app(&["a", "b"]);
    app.rebase_changes.insert("a".to_string(), vec![change(1)]);
    app.rebase_changes.insert("b".to_string(), vec![change(1)]);
    for key in [ch('a'), ch('x'), ch('n'), ch('p'), ch('z'), Key::Enter, Key::Other] {
        assert!(matches!(press(&mut app, key), Action::Continue));
    }
    assert_eq!(app.current_file_idx, 0);
    assert_eq!(app.rebase_changes.get("a").unwrap()[0].state, ChangeState::Unselected);
}

#[test]
fn help_takes_every_key() {
    let mut app = make_app(&["a", "b"]);
    app.show_rebase_modal = false;
    press(&mut app, ch('?'));
    assert!(app.show_help_modal);
    app.show_rebase_modal = true;
    for key in [ch('j'), ch('r'), Key::Tab, ch('i')] {
        assert!(matches!(press(&mut app, key), Action::Continue));
    }
    assert_eq!(app.current_file_idx, 0);
    assert!(app.show_rebase_modal);
    for key in [ch('?'), ch('q'), Key::Esc] {
        app.show_help_modal = true;
        assert!(matches!(press(&mut app, key), Action::Continue));
        assert!(!app.show_help_modal);
    }
}

#[test]
fn proposed_rebase_is_run_or_put_off() {
    let mut app = make_app(&["a", "b"]);
    app.show_rebase_modal = true;
    assert!(matches!(press(&mut app, ch('j')), Action::Continue));
    assert_eq!(app.current_file_idx, 0);
    assert!(matches!(press(&mut app, ch('r')), Action::RunRebase));
    assert!(app.show_rebase_modal);
    for key in [ch('i'), Key::Esc] {
        app.show_rebase_modal = true;
        assert!(matches!(press(&mut app, key), Action::Continue));
        assert!(!app.show_rebase_modal);
    }
}

#[test]
fn rebase_outcomes_are_told() {
    let mut app = make_app(&["a"]);
    app.show_rebase_modal = true;
    assert!(matches!(
        finish_rebase(&mut app, &RebaseOutcome::RolledBack),
        Action::Continue
    ));
    assert!(app.show_rebase_modal);
    assert_eq!(
        app.rebase_notification.as_deref(),
        Some("Rebase failed due to conflicts and was rolled back.")
    );
    finish_rebase(&mut app, &RebaseOutcome::NoUpstream);
    assert!(!app.show_rebase_modal);
    assert_eq!(app.status_message.as_deref(), Some("No upstream branch configured."));
    app.show_rebase_modal = true;
    finish_rebase(&mut app, &RebaseOutcome::Failed("dirty".to_string()));
    assert!(!app.show_rebase_modal);
    assert_eq!(app.status_message.as_deref(), Some("Error: dirty"));
    app.show_rebase_modal = true;
    assert!(matches!(finish_rebase(&mut app, &RebaseOutcome::Rebased), Action::Quit(true)));
    assert!(!app.show_rebase_modal);
}

#[test]
fn every_key_clears_the_message() {
    for key in [ch('j'), ch('z'), Key::Other, ch('?')] {
        let mut app = make_app(&["a"]);
        app.status_message = Some("old".to_string());
        press(&mut app, key);
        assert_eq!(app.status_message, None);
    }
}

#[test]
fn comment_is_written_and_sent() {
    let mut app = make_app(&["src/a.rs"]);
    assert!(matches!(press(&mut app, ch('c')), Action::Continue));
    let comment = app.comment_input.as_ref().unwrap();
    assert_eq!(comment.file, "src/a.rs");
    assert_eq!((comment.line_num, comment.line_content.as_str()), (5, "five"));
    assert_eq!((comment.text.as_str(), comment.cursor_pos), ("", 0));
    for c in "why?".chars() {
        press(&mut app, ch(c));
    }
    assert!(!app.show_help_modal);
    match press(&mut app, Key::Enter) {
        Action::SendComment(message) => {
            assert_eq!(message, "[giff] src/a.rs:5: \"five\" — why?");
        }
        _ => panic!("not sent"),
    }
    assert!(app.comment_input.is_none());
    finish_comment(&mut app, "Helper", &None);
    assert_eq!(app.status_message.as_deref(), Some("Comment sent to Helper"));
    finish_comment(&mut app, "Helper", &Some("no session".to_string()));
    assert_eq!(app.status_message.as_deref(), Some("Error: no session"));
}

#[test]
fn blank_or_dropped_comments_are_not_sent() {
    let mut app = make_app(&["a"]);
    press(&mut app, ch('c'));
    press(&mut app, ch(' '));
    assert!(matches!(press(&mut app, Key::Enter), Action::Continue));
    assert!(app.comment_input.is_none());
    press(&mut app, ch('c'));
    press(&mut app, ch('x'));
    assert!(matches!(press(&mut app, Key::Esc), Action::Continue));
    assert!(app.comment_input.is_none());
    assert_eq!(app.app_mode, AppMode::Diff);
}

#[test]
fn comment_needs_a_line() {
    let mut app = make_app(&["a"]);
    app.cursor_line = 2;
    press(&mut app, ch('c'));
    assert!(app.comment_input.is_none());
    app.view_mode = ViewMode::Unified;
    app.cursor_line = 0;
    press(&mut app, ch('c'));
    assert_eq!(app.comment_input.as_ref().unwrap().line_content, "seven");
}

#[test]
fn key_off_a_character_is_not_accepted() {
    let mut app = make_app(&["a"]);
    app.comment_input = Some(CommentInput {
        file: "a".to_string(),
        line_num: 1,
        line_content: String::new(),
        text: "é".to_string(),
        cursor_pos: 1,
    });
    assert!(!accepts_key(&app, ch('x'), &layout()));
    assert!(!accepts_key(&app, Key::Delete, &layout()));
    assert!(accepts_key(&app, Key::Left, &layout()));
    assert!(accepts_key(&app, Key::Enter, &layout()));
    app.show_help_modal = true;
    assert!(accepts_key(&app, ch('x'), &layout()));
}

#[test]
fn key_past_the_last_number_is_not_accepted() {
    let mut app = make_app(&["a"]);
    app.cursor_line = usize::MAX;
    let low = Layout { height: 6, ..layout() };
    // The list of files has the focus
    assert!(accepts_key(&app, Key::Down, &layout()));
    app.focused_pane = Pane::DiffContent;
    assert!(!accepts_key(&app, Key::Down, &layout()));
    assert!(!accepts_key(&app, ch('j'), &layout()));
    assert!(!accepts_key(&app, Key::PageUp, &low));
    for key in [Key::Up, Key::PageDown, Key::Home, Key::End, Key::Tab, ch('q'), ch('?')] {
        assert!(accepts_key(&app, key, &low));
    }
    // Only where the content is read
    app.app_mode = AppMode::Rebase;
    assert!(accepts_key(&app, Key::Down, &layout()));
    app.app_mode = AppMode::Diff;
    app.show_help_modal = true;
    assert!(accepts_key(&app, Key::Down, &layout()));
    app.show_help_modal = false;
    press(&mut app, Key::PageUp);
    assert_eq!(app.cursor_line, usize::MAX - 10);
    assert!(accepts_key(&app, Key::Down, &layout()));
}

#[test]
fn layout_is_asked_for_where_it_matters() {
    let mut app = make_app(&["a"]);
    assert!(needs_layout(&app, ch('c')));
    assert!(needs_layout(&app, Key::PageDown));
    assert!(!needs_layout(&app, ch('j')));
    assert!(!needs_layout(&app, ch('q')));
    app.focused_pane = Pane::DiffContent;
    assert!(needs_layout(&app, ch('j')));
    assert!(needs_layout(&app, Key::End));
    assert!(!needs_layout(&app, Key::Home));
    app.app_mode = AppMode::Rebase;
    assert!(needs_layout(&app, Key::PageUp));
    assert!(!needs_layout(&app, ch('c')));
    app.show_help_modal = true;
    assert!(!needs_layout(&app, Key::PageUp));
}

fn wheel(kind: MouseKind, row: u16, column: u16) -> Mouse {
    Mouse { kind, row, column }
}

const SIZE: Size = Size { width: 100, height: 30 };

#[test]
fn wheel_moves_what_it_is_over() {
    let mut app = make_app(&["a", "b", "c", "d", "e"]);
    handle_mouse(&mut app, wheel(MouseKind::ScrollDown, 5, 19), SIZE);
    assert_eq!(app.current_file_idx, 3);
    handle_mouse(&mut app, wheel(MouseKind::ScrollDown, 5, 0), SIZE);
    assert_eq!(app.current_file_idx, 4);
    handle_mouse(&mut app, wheel(MouseKind::ScrollUp, 5, 0), SIZE);
    assert_eq!(app.current_file_idx, 1);
    handle_mouse(&mut app, wheel(MouseKind::ScrollDown, 5, 20), SIZE);
    handle_mouse(&mut app, wheel(MouseKind::ScrollDown, 5, 20), SIZE);
    assert_eq!(app.scroll_positions.get("b"), Some(&6));
    handle_mouse(&mut app, wheel(MouseKind::ScrollUp, 5, 20), SIZE);
    assert_eq!(app.scroll_positions.get("b"), Some(&3));
    handle_mouse(&mut app, wheel(MouseKind::ScrollUp, 5, 20), SIZE);
    handle_mouse(&mut app, wheel(MouseKind::ScrollUp, 5, 20), SIZE);
    assert_eq!(app.scroll_positions.get("b"), Some(&0));
    app.scroll_positions.insert("b".to_string(), usize::MAX - 1);
    handle_mouse(&mut app, wheel(MouseKind::ScrollDown, 5, 20), SIZE);
    assert_eq!(app.scroll_positions.get("b"), Some(&usize::MAX));
}

#[test]
fn wheel_moves_among_changes() {
    let mut app = make_app(&["a"]);
    app.app_mode = AppMode::Rebase;
    app.current_change_idx = 1;
    handle_mouse(&mut app, wheel(MouseKind::ScrollUp, 5, 0), SIZE);
    assert_eq!(app.current_change_idx, 1); // no changes
    app.rebase_changes.insert("a".to_string(), (0..6).map(change).collect());
    handle_mouse(&mut app, wheel(MouseKind::ScrollDown, 5, 0), SIZE);
    assert_eq!(app.current_change_idx, 4);
    handle_mouse(&mut app, wheel(MouseKind::ScrollDown, 5, 0), SIZE);
    assert_eq!(app.current_change_idx, 5);
    handle_mouse(&mut app, wheel(MouseKind::ScrollUp, 5, 0), SIZE);
    assert_eq!(app.current_change_idx, 2);
    assert_eq!(app.current_file_idx, 0);
}

#[test]
fn wheel_does_nothing_on_the_frame_or_under_a_modal() {
    let mut app = make_app(&["a", "b", "c", "d", "e"]);
    for row in [0, 29, 30, 60] {
        handle_mouse(&mut app, wheel(MouseKind::ScrollDown, row, 0), SIZE);
        assert_eq!(app.current_file_idx, 0);
    }
    handle_mouse(&mut app, wheel(MouseKind::Other, 5, 0), SIZE);
    assert_eq!(app.current_file_idx, 0);
    app.show_help_modal = true;
    handle_mouse(&mut app, wheel(MouseKind::ScrollDown, 5, 0), SIZE);
    assert_eq!(app.current_file_idx, 0);
    app.show_help_modal = false;
    app.show_rebase_modal = true;
    handle_mouse(&mut app, wheel(MouseKind::ScrollDown, 5, 0), SIZE);
    assert_eq!(app.current_file_idx, 0);
    app.show_rebase_modal = false;
    handle_mouse(&mut app, wheel(MouseKind::ScrollDown, 28, 0), SIZE);
    assert_eq!(app.current_file_idx, 3);
    let tiny = Size { width: 0, height: 0 };
    handle_mouse(&mut app, wheel(MouseKind::ScrollDown, 0, 0), tiny);
    assert_eq!(app.current_file_idx, 3);
}
