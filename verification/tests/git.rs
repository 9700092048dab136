use giff::git::{
    check_rebase_needed, get_diff_output_with_args, get_untracked_files, get_upstream_branch,
    git_repo_root, has_uncommitted_changes, perform_rebase, GitCommand, GitOutput, RebaseCheck,
    RebaseRun,
};
use giff::quoting::unquote;

fn output(success: bool, stdout: &str) -> GitOutput {
    GitOutput { success, stdout: stdout.to_string(), stderr: "why".to_string() }
}

#[test]
fn commands_have_their_arguments() {
    let expected: Vec<(GitCommand, Vec<&str>)> = vec![
        (GitCommand::Diff(vec!["a".into(), "b".into()]), vec!["diff", "--no-color", "a", "b"]),
        (GitCommand::Upstream, vec!["rev-parse", "--abbrev-ref", "HEAD@{u}"]),
        (GitCommand::RepoRoot, vec!["rev-parse", "--show-toplevel"]),
        (GitCommand::Porcelain, vec!["status", "--porcelain"]),
        (GitCommand::Untracked, vec!["status", "--porcelain", "--untracked-files=all"]),
        (GitCommand::InsideWorkTree, vec!["rev-parse", "--is-inside-work-tree"]),
        (GitCommand::Branch, vec!["symbolic-ref", "--short", "HEAD"]),
        (GitCommand::UpstreamOf("dev".into()), vec!["rev-parse", "--abbrev-ref", "dev@{u}"]),
        (GitCommand::BranchStatus, vec!["status", "-sb"]),
        (GitCommand::Rebase("origin/main".into()), vec!["rebase", "origin/main"]),
        (GitCommand::AbortRebase, vec!["rebase", "--abort"]),
    ];
    for (command, args) in expected {
        assert_eq!(command.args(), args);
    }
}

#[test]
fn single_answers_are_read() {
    assert_eq!(
        get_upstream_branch(&output(true, "origin/main\n")),
        Some("origin/main".to_string())
    );
    assert_eq!(get_upstream_branch(&output(false, "x")), None);
    assert_eq!(git_repo_root(&output(true, " /repo \n")).unwrap(), "/repo");
    assert_eq!(
        git_repo_root(&output(false, "")).unwrap_err().message(),
        "Not in a git repository"
    );
    assert_eq!(get_diff_output_with_args(&output(true, "text\n")).unwrap(), "text\n");
    assert_eq!(
        get_diff_output_with_args(&output(false, "")).unwrap_err().message(),
        "Failed to execute git diff command: why"
    );
    assert!(has_uncommitted_changes(&output(true, " M a.rs\n")));
    assert!(!has_uncommitted_changes(&output(true, "\n")));
}

#[test]
fn untracked_files_are_listed() {
    let status = " M a.rs\n?? new.rs\n?? dir/b c.rs \n??x\n?? \nA  d.rs\n";
    assert_eq!(
        get_untracked_files(&output(true, status)),
        vec!["new.rs".to_string(), "dir/b c.rs".to_string(), "".to_string()]
    );
}

#[test]
fn quotes_of_untracked_paths_come_off() {
    let status = " M a.rs\n?? b.rs\n?? \"c d.rs\"\nA  e.rs\n";
    assert_eq!(
        get_untracked_files(&output(true, status)),
        vec!["b.rs".to_string(), "c d.rs".to_string()]
    );
    let escaped = "?? \"a\\tb\\\"c\\\\d\\303\\251\\001\"\n?? \"\u{e9} x\"\n?? newdir/a.txt\n";
    assert_eq!(
        get_untracked_files(&output(true, escaped)),
        vec![
            "a\tb\"c\\d\u{e9}\u{1}".to_string(),
            "\u{e9} x".to_string(),
            "newdir/a.txt".to_string(),
        ]
    );
}

#[test]
fn every_escape_is_read() {
    assert_eq!(unquote("\"\\a\\b\\t\\n\\v\\f\\r\\\"\\\\\""), "\u{7}\u{8}\t\n\u{b}\u{c}\r\"\\");
    assert_eq!(unquote("\"\\101\\177\""), "A\u{7f}");
    assert_eq!(unquote("\"\""), "");
    // What is no quoted text stays as it is
    for text in ["", "a", "\"", "\"a", "a\"", "\"\\\"", "\"\\x\"", "\"\\400\"", "\"\\18\"", "\"\\377\""] {
        assert_eq!(unquote(text), text);
    }
}

fn check(answers: &[(bool, &str)]) -> Option<Option<String>> {
    let mut state = RebaseCheck::WorkTree;
    for (success, stdout) in answers {
        if state.query().is_none() {
            panic!("settled too early");
        }
        state = check_rebase_needed(state, &output(*success, stdout));
    }
    match state {
        RebaseCheck::Done(advice) => Some(advice),
        _ => None,
    }
}

#[test]
fn rebase_is_advised_when_behind() {
    let start = [(true, "true\n"), (true, "dev\n"), (true, "origin/dev\n")];
    let status = |text| {
        let mut answers = start.to_vec();
        answers.push((true, text));
        check(&answers)
    };
    assert_eq!(
        status("## dev...origin/dev [behind 2]\n"),
        Some(Some("Your branch 'dev' is behind 'origin/dev'. A rebase is recommended.".to_string()))
    );
    assert_eq!(
        status("## dev...origin/dev [ahead 1, behind 2]\n"),
        Some(Some(
            "Your branch 'dev' has diverged from 'origin/dev'.\nConsider rebasing to integrate changes cleanly."
                .to_string()
        ))
    );
    assert_eq!(status("## dev...origin/dev [ahead 1]\n"), Some(None));
    assert_eq!(status("## dev...origin/dev\n"), Some(None));
    assert_eq!(status("## dev...origin/dev [gone]\n"), Some(None));
    assert_eq!(status(""), Some(None));
}

#[test]
fn files_and_names_do_not_make_a_branch_diverge() {
    let advice = |text| {
        check(&[(true, "true\n"), (true, "main\n"), (true, "origin/main\n"), (true, text)])
    };
    assert_eq!(advice("## main...origin/main\n M ahead_behind.rs\n"), Some(None));
    assert_eq!(advice("## main...origin/main\n?? x [behind 1]\n"), Some(None));
    assert_eq!(advice("## ahead...origin/behind\n"), Some(None));
    assert_eq!(advice("## main...origin/main [ahead 1]\n M behind.rs\n"), Some(None));
    assert_eq!(advice(" M [ahead 1, behind 2]\n"), Some(None));
}

#[test]
fn check_stops_at_the_first_failure() {
    assert_eq!(check(&[(false, "")]), Some(None));
    assert_eq!(check(&[(true, ""), (false, "")]), Some(None));
    assert_eq!(check(&[(true, ""), (true, "dev"), (false, "")]), Some(None));
    assert_eq!(check(&[(true, ""), (true, "dev")]), None);
}

#[test]
fn check_asks_for_the_upstream_of_the_branch() {
    let state = check_rebase_needed(RebaseCheck::WorkTree, &output(true, ""));
    let state = check_rebase_needed(state, &output(true, " dev \n"));
    assert_eq!(
        state.query().unwrap().args(),
        vec!["rev-parse", "--abbrev-ref", "dev@{u}"]
    );
}

fn run(answers: &[(bool, &str)]) -> RebaseRun {
    let mut state = RebaseRun::Check;
    for (success, stdout) in answers {
        state = perform_rebase(state, &output(*success, stdout));
    }
    state
}

#[test]
fn rebase_runs_on_a_clean_tree() {
    assert_eq!(run(&[]).query("up").unwrap().args(), vec!["status", "--porcelain"]);
    assert_eq!(run(&[(true, "")]).query("up").unwrap().args(), vec!["rebase", "up"]);
    let done = run(&[(true, ""), (true, "")]);
    assert!(done.query("up").is_none());
    assert!(matches!(done.result(), Some(Ok(true))));
}

#[test]
fn failed_rebase_is_taken_back() {
    let failed = run(&[(true, ""), (false, "")]);
    assert!(failed.result().is_none());
    assert_eq!(failed.query("up").unwrap().args(), vec!["rebase", "--abort"]);
    assert!(matches!(run(&[(true, ""), (false, ""), (false, "")]).result(), Some(Ok(false))));
}

#[test]
fn rebase_is_refused_on_a_dirty_tree() {
    let refused = run(&[(true, " M a.rs\n")]);
    assert!(refused.query("up").is_none());
    match refused.result() {
        Some(Err(e)) => assert_eq!(
            e.message(),
            "Cannot rebase: you have uncommitted changes. Please commit or stash them first."
        ),
        _ => panic!("not refused"),
    }
}
