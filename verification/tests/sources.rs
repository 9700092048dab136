use giff::git::{get_untracked_files, GitOutput};
use giff::sources::{
    build_untracked_entry, get_changes_between, get_changes_to_ref, get_changes_with_args,
    get_uncommitted_changes, is_loadable, load_changes, refresh_diff, DiffSource,
};

fn output(success: bool, stdout: &str) -> GitOutput {
    GitOutput { success, stdout: stdout.to_string(), stderr: "bad revision\n".to_string() }
}

const DIFF: &str = "diff --git a/a.rs b/a.rs\n@@ -1 +1 @@\n-old\n+new\n";

#[test]
fn sources_have_their_commands() {
    let args = |source: DiffSource| source.command().args();
    assert_eq!(args(DiffSource::Uncommitted), vec!["diff", "--no-color", "HEAD"]);
    assert_eq!(args(DiffSource::ToRef("v1".into())), vec!["diff", "--no-color", "v1"]);
    assert_eq!(
        args(DiffSource::Between("a".into(), "b".into())),
        vec!["diff", "--no-color", "a..b"]
    );
    assert_eq!(
        args(DiffSource::WithArgs("  --cached  main..x\t-w ".into())),
        vec!["diff", "--no-color", "--cached", "main..x", "-w"]
    );
}

#[test]
fn untracked_files_belong_to_the_working_tree() {
    assert!(DiffSource::Uncommitted.shows_untracked());
    assert!(DiffSource::ToRef("v1".into()).shows_untracked());
    assert!(!DiffSource::Between("a".into(), "b".into()).shows_untracked());
    assert!(!DiffSource::WithArgs("x".into()).shows_untracked());
}

#[test]
fn untracked_file_is_all_additions() {
    let (base, head) = build_untracked_entry(&Some("one\n\nthree".to_string())).unwrap();
    assert!(base.is_empty());
    assert_eq!(
        head,
        vec![(1, "+one".to_string()), (2, "+".to_string()), (3, "+three".to_string())]
    );
    assert!(build_untracked_entry(&None).is_none());
    assert!(build_untracked_entry(&Some("".to_string())).unwrap().1.is_empty());
}

#[test]
fn uncommitted_changes_take_in_untracked_files() {
    let untracked = vec![
        ("a.rs".to_string(), Some("ignored".to_string())),
        ("b.rs".to_string(), Some("x\n".to_string())),
        ("binary".to_string(), None),
    ];
    let (files, left, right) =
        get_uncommitted_changes(&output(true, DIFF), &untracked).unwrap();
    assert_eq!((left.as_str(), right.as_str()), ("HEAD", "Working Tree"));
    assert_eq!(files.sorted_names(), vec!["a.rs".to_string(), "b.rs".to_string()]);
    assert_eq!(files.get("a.rs").unwrap().0, vec![(1, "-old".to_string())]);
    assert_eq!(files.get("b.rs").unwrap().1, vec![(1, "+x".to_string())]);
}

#[test]
fn files_of_an_untracked_directory_are_taken_in() {
    let listed = get_untracked_files(&output(true, "?? newdir/a.txt\n"));
    let untracked: Vec<(String, Option<String>)> =
        listed.into_iter().map(|path| (path, Some("hi\n".to_string()))).collect();
    let (files, left, right) = get_uncommitted_changes(&output(true, ""), &untracked).unwrap();
    assert_eq!((left.as_str(), right.as_str()), ("HEAD", "Working Tree"));
    let (base, head) = files.get("newdir/a.txt").unwrap();
    assert!(base.is_empty());
    assert_eq!(head, &vec![(1, "+hi".to_string())]);
}

#[test]
fn each_source_names_its_sides() {
    let out = output(true, DIFF);
    let (files, left, right) = get_changes_to_ref("v1", &out, &vec![]).unwrap();
    assert_eq!((left.as_str(), right.as_str()), ("v1", "Working Tree"));
    assert!(files.contains_key("a.rs"));
    let (_, left, right) = get_changes_between("a", "b", &out).unwrap();
    assert_eq!((left.as_str(), right.as_str()), ("a", "b"));
    let (_, left, right) = get_changes_with_args("main..dev", &out).unwrap();
    assert_eq!((left.as_str(), right.as_str()), ("main", "dev"));
}

#[test]
fn refresh_loads_what_the_source_says() {
    let untracked = vec![("b.rs".to_string(), Some("x".to_string()))];
    let names = |source: DiffSource| {
        let (files, left, right) =
            refresh_diff(&source, &output(true, DIFF), &untracked).unwrap();
        (files.sorted_names().len(), left, right)
    };
    assert_eq!(names(DiffSource::Uncommitted), (2, "HEAD".into(), "Working Tree".into()));
    assert_eq!(names(DiffSource::ToRef("r".into())), (2, "r".into(), "Working Tree".into()));
    assert_eq!(
        names(DiffSource::Between("a".into(), "b".into())),
        (1, "a".into(), "b".into())
    );
    assert_eq!(
        names(DiffSource::WithArgs("--cached".into())),
        (1, "--cached".into(), "Target".into())
    );
}

#[test]
fn failure_of_git_is_passed_on() {
    match refresh_diff(&DiffSource::Uncommitted, &output(false, DIFF), &vec![]) {
        Err(e) => assert_eq!(
            e.message(),
            "Failed to execute git diff command: bad revision\n"
        ),
        Ok(_) => panic!("loaded"),
    }
}

#[test]
fn diff_that_cannot_be_counted_is_not_loaded() {
    let text = format!("diff --git a/f b/f\n@@ -1 +{} @@\n+x\n", usize::MAX);
    assert!(!is_loadable(&output(true, &text)));
    assert!(is_loadable(&output(false, &text)));
    assert!(load_changes(&DiffSource::Uncommitted, &output(true, &text), &vec![]).is_none());
    assert!(load_changes(&DiffSource::Uncommitted, &output(true, DIFF), &vec![]).is_some());
}
