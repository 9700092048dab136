use giff::filter::FileFilter;
use giff::git::GitOutput;
use giff::names::NameMap;
use giff::refresh::{refresh_if_changed, same_changes};
use giff::sources::{load_changes, DiffSource};
use giff::state::{App, AppMode, Pane, Theme, ViewMode};

fn output(success: bool, stdout: &str) -> GitOutput {
    GitOutput { success, stdout: stdout.to_string(), stderr: String::new() }
}

fn diff_of(files: &[&str]) -> String {
    files
        .iter()
        .map(|f| format!("diff --git a/{} b/{}\n@@ -1 +1 @@\n-old\n+new\n", f, f))
        .collect()
}

fn make_app(files: &[&str]) -> App {
    let source = DiffSource::ToRef("v1".to_string());
    let (file_changes, left_label, right_label) =
        load_changes(&source, &output(true, &diff_of(files)), &vec![]).unwrap().unwrap();
    let file_names = file_changes.sorted_names();
    App {
        file_changes,
        left_label,
        right_label,
        diff_source: source,
        current_file_idx: 0,
        file_names,
        scroll_positions: NameMap::new(),
        focused_pane: Pane::FileList,
        view_mode: ViewMode::SideBySide,
        app_mode: AppMode::Diff,
        rebase_changes: NameMap::new(),
        current_change_idx: 0,
        rebase_notification: None,
        show_rebase_modal: false,
        status_message: None,
        show_help_modal: false,
        theme: Theme::dark(),
        theme_cycle: vec![],
        theme_cycle_idx: 0,
        file_filter: FileFilter::new(&[], &["*.lock".to_string()]).unwrap(),
        comment_input: None,
        cursor_line: 0,
    }
}

fn refresh(app: &mut App, files: &[&str]) {
    refresh_if_changed(app, &output(true, &diff_of(files)), &vec![]);
}

#[test]
fn refresh_keeps_the_file_and_its_scroll() {
    let mut app = make_app(&["b", "d"]);
    app.current_file_idx = 1;
    app.scroll_positions.insert("b".to_string(), 4);
    app.scroll_positions.insert("d".to_string(), 7);
    refresh(&mut app, &["e", "d", "a", "c"]);
    assert_eq!(app.file_names, vec!["a", "c", "d", "e"]);
    assert_eq!(app.current_file_idx, 2);
    assert_eq!(app.scroll_positions.get("d"), Some(&7));
    assert_eq!(app.scroll_positions.get("a"), Some(&0));
    assert_eq!(app.scroll_positions.get("b"), None);
    assert_eq!(app.left_label, "v1");
    assert_eq!(app.right_label, "Working Tree");
}

#[test]
fn refresh_without_the_file_goes_to_the_start() {
    let mut app = make_app(&["a", "b"]);
    app.current_file_idx = 1;
    refresh(&mut app, &["a", "c"]);
    assert_eq!(app.current_file_idx, 0);
    refresh(&mut app, &[]);
    assert!(app.file_names.is_empty());
    assert_eq!(app.current_file_idx, 0);
}

#[test]
fn refresh_without_news_changes_nothing() {
    let mut app = make_app(&["a"]);
    app.app_mode = AppMode::Rebase;
    app.left_label = "mine".to_string();
    refresh(&mut app, &["a"]);
    assert_eq!(app.left_label, "mine");
    assert_eq!(app.app_mode, AppMode::Rebase);
    // Files that are left out are no news
    refresh(&mut app, &["a", "Cargo.lock"]);
    assert_eq!(app.left_label, "mine");
}

#[test]
fn refresh_leaves_out_what_the_filter_does() {
    let mut app = make_app(&["a"]);
    refresh(&mut app, &["a", "b", "x/Cargo.lock"]);
    assert_eq!(app.file_names, vec!["a", "b"]);
}

#[test]
fn refresh_takes_in_untracked_files() {
    let mut app = make_app(&["a"]);
    let untracked = vec![("new".to_string(), Some("x".to_string()))];
    refresh_if_changed(&mut app, &output(true, &diff_of(&["a"])), &untracked);
    assert_eq!(app.file_names, vec!["a", "new"]);
}

#[test]
fn refresh_ends_the_choice_of_changes() {
    let mut app = make_app(&["a"]);
    app.app_mode = AppMode::Rebase;
    app.rebase_changes.insert("a".to_string(), vec![]);
    app.current_change_idx = 3;
    refresh(&mut app, &["b"]);
    assert_eq!(app.app_mode, AppMode::Diff);
    assert!(app.rebase_changes.entries().is_empty());
    assert_eq!(app.current_change_idx, 0);
}

#[test]
fn failed_refresh_changes_nothing() {
    let mut app = make_app(&["a"]);
    refresh_if_changed(&mut app, &output(false, &diff_of(&["b"])), &vec![]);
    assert_eq!(app.file_names, vec!["a"]);
    let endless = format!("diff --git a/f b/f\n@@ -{} +1 @@\n-x\n", usize::MAX);
    refresh_if_changed(&mut app, &output(true, &endless), &vec![]);
    assert_eq!(app.file_names, vec!["a"]);
}

#[test]
fn second_refresh_is_without_news() {
    let mut app = make_app(&["a"]);
    refresh(&mut app, &["a", "b"]);
    app.left_label = "mine".to_string();
    refresh(&mut app, &["a", "b"]);
    assert_eq!(app.left_label, "mine");
}

#[test]
fn changes_are_compared_by_what_they_say() {
    let load = |text: &str| {
        load_changes(&DiffSource::WithArgs("x".into()), &output(true, text), &vec![])
            .unwrap()
            .unwrap()
            .0
    };
    let ab = load(&diff_of(&["a", "b"]));
    let ba = load(&diff_of(&["b", "a"]));
    assert!(same_changes(&ab, &ba));
    assert!(!same_changes(&ab, &load(&diff_of(&["a"]))));
    assert!(!same_changes(&load(&diff_of(&["a"])), &ab));
    assert!(!same_changes(&load(&diff_of(&["a"])), &load(&diff_of(&["b"]))));
    let line = load("diff --git a/a b/a\n@@ -1 +1 @@\n-old\n+NEW\n");
    let number = load("diff --git a/a b/a\n@@ -2 +1 @@\n-old\n+new\n");
    assert!(!same_changes(&load(&diff_of(&["a"])), &line));
    assert!(!same_changes(&load(&diff_of(&["a"])), &number));
}
