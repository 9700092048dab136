use giff::filter::{glob_source, glob_to_regex, FileFilter};
use giff::names::NameMap;
use giff::parse::FileChanges;

#[test]
fn glob_star_matches_filename() {
    let re = glob_to_regex("*.rs").unwrap();
    assert!(re.is_match("main.rs"));
    assert!(re.is_match("src/main.rs"));
    assert!(!re.is_match("main.toml"));
}

#[test]
fn glob_star_does_not_cross_slash() {
    let re = glob_to_regex("src/*.rs").unwrap();
    assert!(re.is_match("src/main.rs"));
    assert!(!re.is_match("src/ui/render.rs"));
}

#[test]
fn glob_double_star_crosses_slash() {
    let re = glob_to_regex("src/**/*.rs").unwrap();
    assert!(re.is_match("src/main.rs"));
    assert!(re.is_match("src/ui/render.rs"));
    assert!(!re.is_match("tests/main.rs"));
}

#[test]
fn glob_question_mark_matches_single_char() {
    let re = glob_to_regex("?.rs").unwrap();
    assert!(re.is_match("a.rs"));
    assert!(!re.is_match("ab.rs"));
}

#[test]
fn glob_escapes_dot() {
    let re = glob_to_regex("Cargo.lock").unwrap();
    assert!(re.is_match("Cargo.lock"));
    assert!(!re.is_match("Cargoxlock"));
}

#[test]
fn filter_empty_is_passthrough() {
    let f = FileFilter::new(&[], &[]).unwrap();
    assert!(f.is_empty());
    assert!(f.matches("anything.rs"));
}

#[test]
fn filter_include_only() {
    let f = FileFilter::new(&["*.rs".into()], &[]).unwrap();
    assert!(f.matches("main.rs"));
    assert!(f.matches("src/lib.rs"));
    assert!(!f.matches("Cargo.toml"));
}

#[test]
fn filter_exclude_only() {
    let f = FileFilter::new(&[], &["*.lock".into()]).unwrap();
    assert!(f.matches("main.rs"));
    assert!(!f.matches("Cargo.lock"));
}

#[test]
fn filter_include_and_exclude() {
    let f = FileFilter::new(&["src/**/*.rs".into()], &["*test*".into()]).unwrap();
    assert!(f.matches("src/main.rs"));
    assert!(f.matches("src/ui/render.rs"));
    assert!(!f.matches("src/ui/tests.rs"));
    assert!(!f.matches("Cargo.toml"));
}

#[test]
fn filter_apply_removes_non_matching() {
    let f = FileFilter::new(&["*.rs".into()], &[]).unwrap();
    let mut fc: FileChanges = NameMap::new();
    fc.insert("main.rs".into(), (vec![], vec![]));
    fc.insert("Cargo.toml".into(), (vec![], vec![]));
    fc.insert("src/lib.rs".into(), (vec![], vec![]));
    f.apply(&mut fc);
    assert!(fc.contains_key("main.rs"));
    assert!(fc.contains_key("src/lib.rs"));
    assert!(!fc.contains_key("Cargo.toml"));
}

#[test]
fn glob_is_written_as_an_expression() {
    assert_eq!(glob_source(""), "(?:^|/)$");
    assert_eq!(glob_source("*.rs"), "(?:^|/)[^/]*\\.rs$");
    assert_eq!(glob_source("src/**/?"), "(?:^|/)src/.*/?[^/]$");
    assert_eq!(glob_source("**x"), "(?:^|/).*x$");
    assert_eq!(glob_source("***"), "(?:^|/).*[^/]*$");
    assert_eq!(
        glob_source(".+(){}[]^$|\\"),
        "(?:^|/)\\.\\+\\(\\)\\{\\}\\[\\]\\^\\$\\|\\\\$"
    );
}

#[test]
fn plain_glob_matches_itself_behind_a_slash() {
    let f = FileFilter::new(&["a-b#c".into()], &[]).unwrap();
    assert!(f.matches("a-b#c"));
    assert!(f.matches("dir/a-b#c"));
    assert!(!f.matches("xa-b#c"));
    assert!(!f.matches("a-b#c/d"));
}

#[test]
fn double_star_stops_at_the_end_of_a_line() {
    let f = FileFilter::new(&["a**b".into()], &[]).unwrap();
    assert!(f.matches("a/x/b"));
    assert!(!f.matches("a\nb"));
    let g = FileFilter::new(&["a*b".into()], &[]).unwrap();
    assert!(g.matches("a\nb"));
    assert!(!g.matches("a/b"));
}

#[test]
fn special_characters_stand_for_themselves() {
    let f = FileFilter::new(&["(a|b)[c]{1}^$+\\.".into()], &[]).unwrap();
    assert!(f.matches("(a|b)[c]{1}^$+\\."));
    assert!(!f.matches("ac"));
}

#[test]
fn exclusion_comes_before_inclusion() {
    let f = FileFilter::new(&["*.rs".into()], &["*.rs".into()]).unwrap();
    assert!(!f.is_empty());
    assert!(!f.matches("main.rs"));
}

#[test]
fn filtering_twice_is_filtering_once() {
    let f = FileFilter::new(&[], &["*.lock".into()]).unwrap();
    let mut fc: FileChanges = NameMap::new();
    fc.insert("Cargo.lock".into(), (vec![], vec![]));
    fc.insert("main.rs".into(), (vec![(1, "-x".into())], vec![]));
    f.apply(&mut fc);
    f.apply(&mut fc);
    assert_eq!(fc.sorted_names(), vec!["main.rs".to_string()]);
    assert_eq!(fc.get("main.rs").unwrap().0, vec![(1, "-x".to_string())]);
}

#[test]
fn glob_of_a_thousand_characters_compiles() {
    for unit in ["?", "*?", "*a", "a", "😀", ".", "**/", "**a", "/", "?😀*"] {
        let pattern: String = unit.chars().cycle().take(1000).collect();
        assert!(glob_to_regex(&pattern).is_ok());
    }
    let names: String = "?".repeat(1000);
    let f = FileFilter::new(&[names], &[]).unwrap();
    assert!(f.matches(&"é".repeat(1000)));
    assert!(!f.matches(&"é".repeat(999)));
}

#[test]
fn glob_too_large_to_compile_is_refused() {
    let huge = "?".repeat(200_000);
    match FileFilter::new(&["*.rs".into(), huge.clone()], &[]) {
        Err(e) => assert!(e.message.contains("size limit")),
        Ok(_) => panic!("compiled"),
    }
    assert!(FileFilter::new(&[], &[huge]).is_err());
}
