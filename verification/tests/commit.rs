use giff::commit::{accepted_operations, commit_rebase_changes, rebase_plan, strip_plus};
use giff::edits::{apply_operations, ChangeOp};
use giff::filter::FileFilter;
use giff::names::NameMap;
use giff::sources::DiffSource;
use giff::state::{App, AppMode, Change, ChangeState, Pane, Theme, ViewMode};

fn make_app() -> App {
    App {
        file_changes: NameMap::new(),
        left_label: String::new(),
        right_label: String::new(),
        diff_source: DiffSource::Uncommitted,
        current_file_idx: 0,
        file_names: vec![],
        scroll_positions: NameMap::new(),
        focused_pane: Pane::FileList,
        view_mode: ViewMode::SideBySide,
        app_mode: AppMode::Rebase,
        rebase_changes: NameMap::new(),
        current_change_idx: 0,
        rebase_notification: None,
        show_rebase_modal: false,
        status_message: None,
        show_help_modal: false,
        theme: Theme::light(),
        theme_cycle: vec![],
        theme_cycle_idx: 0,
        file_filter: FileFilter::new(&[], &[]).unwrap(),
        comment_input: None,
        cursor_line: 0,
    }
}

fn change(line_num: usize, content: &str, is_base: bool, state: ChangeState) -> Change {
    Change {
        line_num,
        content: content.to_string(),
        paired_content: None,
        state,
        is_base,
        context: vec![],
        base_insert_pos: None,
    }
}

#[test]
fn one_plus_sign_is_stripped() {
    assert_eq!(strip_plus("+a"), "a");
    assert_eq!(strip_plus("++a"), "+a");
    assert_eq!(strip_plus("-a"), "-a");
    assert_eq!(strip_plus(""), "");
}

#[test]
fn accepted_changes_become_operations() {
    let accepted = ChangeState::Accepted;
    let mut replaced = change(2, "-two", true, accepted);
    replaced.paired_content = Some("+TWO".to_string());
    let mut inserted = change(9, "+new", false, accepted);
    inserted.base_insert_pos = Some(4);
    let changes = vec![
        change(1, "-one", true, accepted),
        replaced,
        change(3, "-three", true, ChangeState::Rejected),
        inserted,
        change(7, "+last", false, accepted),
        change(1, "+never", false, ChangeState::Unselected),
    ];
    let operations = accepted_operations(&changes);
    assert_eq!(operations.len(), 4);
    assert!(matches!(operations[0], ChangeOp::Delete(1)));
    match &operations[1] {
        ChangeOp::Replace(2, content) => assert_eq!(content, "TWO"),
        _ => panic!("no replacement"),
    }
    match &operations[2] {
        ChangeOp::Insert { base_pos: 4, order: 9, content } => assert_eq!(content, "new"),
        _ => panic!("no insertion"),
    }
    match &operations[3] {
        ChangeOp::Insert { base_pos: 7, order: 7, content } => assert_eq!(content, "last"),
        _ => panic!("no insertion"),
    }
    let file: Vec<String> =
        ["one", "two", "three", "four"].iter().map(|s| s.to_string()).collect();
    assert_eq!(apply_operations(&file, &operations), vec!["TWO", "three", "new", "four", "last"]);
}

#[test]
fn plan_names_files_with_accepted_changes() {
    let mut app = make_app();
    app.rebase_changes.insert(
        "a".to_string(),
        vec![change(1, "-x", true, ChangeState::Accepted)],
    );
    app.rebase_changes.insert(
        "b".to_string(),
        vec![change(1, "-x", true, ChangeState::Rejected)],
    );
    app.rebase_changes.insert("c".to_string(), vec![]);
    app.rebase_changes.insert(
        "d".to_string(),
        vec![
            change(5, "-x", true, ChangeState::Accepted),
            change(6, "+y", false, ChangeState::Accepted),
        ],
    );
    let mut plan: Vec<(String, usize)> =
        rebase_plan(&app).into_iter().map(|(file, ops)| (file, ops.len())).collect();
    plan.sort();
    assert_eq!(plan, vec![("a".to_string(), 1), ("d".to_string(), 2)]);
    assert_eq!(app.app_mode, AppMode::Rebase);
}

#[test]
fn commit_is_told() {
    let told = |outcomes: Vec<(String, Option<String>)>| {
        let mut app = make_app();
        commit_rebase_changes(&mut app, &outcomes);
        assert_eq!(app.app_mode, AppMode::Diff);
        app.status_message.unwrap()
    };
    assert_eq!(told(vec![]), "No accepted changes to apply.");
    assert_eq!(told(vec![("a".into(), None)]), "Changes applied successfully!");
    assert_eq!(
        told(vec![
            ("a".into(), Some("denied".into())),
            ("b".into(), None),
            ("c".into(), Some("gone".into()))
        ]),
        "Error: a: denied; c: gone"
    );
}
