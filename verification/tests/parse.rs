use giff::parse::{classify_line, is_countable, parse_diff_output, DiffLine};

#[test]
fn parse_skips_rename_metadata() {
    let diff = "\
diff --git a/old.rs b/new.rs
similarity index 95%
rename from old.rs
rename to new.rs
index abc..def 100644
--- a/old.rs
+++ b/new.rs
@@ -1,3 +1,3 @@
 fn main() {
-    old();
+    new();
 }
";
    let changes = parse_diff_output(diff).unwrap();
    let (base, head) = changes.get("new.rs").expect("file should be present");
    // Only actual diff lines should be present, no metadata leaking as context
    assert!(
        !base
            .iter()
            .any(|(_, l)| l.contains("similarity") || l.contains("rename")),
        "metadata leaked into base lines: {:?}",
        base
    );
    assert!(
        !head
            .iter()
            .any(|(_, l)| l.contains("similarity") || l.contains("rename")),
        "metadata leaked into head lines: {:?}",
        head
    );
}

#[test]
fn parse_skips_no_newline_marker() {
    let diff = "\
diff --git a/file.rs b/file.rs
index abc..def 100644
--- a/file.rs
+++ b/file.rs
@@ -1,2 +1,2 @@
-old line
\\ No newline at end of file
+new line
\\ No newline at end of file
";
    let changes = parse_diff_output(diff).unwrap();
    let (base, head) = changes.get("file.rs").expect("file should be present");
    assert!(
        !base.iter().any(|(_, l)| l.contains("No newline")),
        "no-newline marker leaked into base lines: {:?}",
        base
    );
    assert!(
        !head.iter().any(|(_, l)| l.contains("No newline")),
        "no-newline marker leaked into head lines: {:?}",
        head
    );
}

#[test]
fn parse_skips_binary_files_line() {
    let diff = "\
diff --git a/image.png b/image.png
Binary files a/image.png and b/image.png differ
";
    let changes = parse_diff_output(diff).unwrap();
    // Binary file should have entry but no content lines
    if let Some((base, head)) = changes.get("image.png") {
        assert!(base.is_empty());
        assert!(head.is_empty());
    }
    // Or no entry at all — both are acceptable
}

fn line(number: usize, text: &str) -> (usize, String) {
    (number, text.to_string())
}

#[test]
fn lines_are_numbered_from_the_hunk_header() {
    let diff = "\
diff --git a/f b/f
index abc..def 100644
--- a/f
+++ b/f
@@ -10,3 +20,3 @@ fn context() {
 one
-two
+TWO
 three
@@ -100 +200,2 @@
+new
 old
";
    let changes = parse_diff_output(diff).unwrap();
    let (base, head) = changes.get("f").unwrap();
    assert_eq!(
        base,
        &vec![line(10, " one"), line(11, "-two"), line(12, " three"), line(100, " old")]
    );
    assert_eq!(
        head,
        &vec![
            line(20, " one"),
            line(21, "+TWO"),
            line(22, " three"),
            line(200, "+new"),
            line(201, " old")
        ]
    );
}

#[test]
fn each_header_begins_a_file() {
    let diff = "\
diff --git a/a.rs b/a.rs
@@ -1 +1 @@
-a
+b
diff --git a/b.rs b/c.rs
@@ -5 +5 @@
+c
";
    let changes = parse_diff_output(diff).unwrap();
    let mut names = changes.sorted_names();
    names.sort();
    assert_eq!(names, vec!["a.rs".to_string(), "c.rs".to_string()]);
    assert_eq!(changes.get("a.rs").unwrap().0, vec![line(1, "-a")]);
    assert_eq!(changes.get("a.rs").unwrap().1, vec![line(1, "+b")]);
    assert!(changes.get("c.rs").unwrap().0.is_empty());
    assert_eq!(changes.get("c.rs").unwrap().1, vec![line(5, "+c")]);
    assert!(changes.get("b.rs").is_none());
}

#[test]
fn no_diff_has_no_files() {
    let changes = parse_diff_output("").unwrap();
    assert!(changes.entries().is_empty());
}

#[test]
fn lines_before_a_header_count_for_the_first_file() {
    let changes = parse_diff_output("stray\ndiff --git a/f b/f\n+x\n").unwrap();
    let (base, head) = changes.get("f").unwrap();
    assert_eq!(base, &vec![line(1, "stray")]);
    assert_eq!(head, &vec![line(1, "stray"), line(1, "+x")]);
}

#[test]
fn trailing_space_and_colours_are_taken_off() {
    let diff = "diff --git a/f b/f\n@@ -1 +1 @@\n\x1b[31m-gone  \x1b[m\n+here \t\r\n";
    let changes = parse_diff_output(diff).unwrap();
    let (base, head) = changes.get("f").unwrap();
    assert_eq!(base, &vec![line(1, "-gone  ")]);
    assert_eq!(head, &vec![line(1, "+here")]);
}

#[test]
fn longest_old_name_is_taken_from_a_header() {
    let changes = parse_diff_output("diff --git a/x b/y b/z\n+n\n").unwrap();
    assert!(changes.get("z").is_some());
    assert!(changes.get("y b/z").is_none());
    // so that a name with the separator in it is cut
    let cut = parse_diff_output("diff --git a/x b/y b/x b/y\n+n\n").unwrap();
    assert_eq!(cut.sorted_names(), vec!["y".to_string()]);
}

#[test]
fn hunk_numbers_that_cannot_be_read_are_one() {
    let diff = "diff --git a/f b/f\n@@ -99999999999999999999999999 +7 @@\n-a\n+b\n";
    let changes = parse_diff_output(diff).unwrap();
    let (base, head) = changes.get("f").unwrap();
    assert_eq!(base, &vec![line(1, "-a")]);
    assert_eq!(head, &vec![line(7, "+b")]);
}

#[test]
fn hunk_at_the_largest_number_cannot_be_counted() {
    let header = format!("diff --git a/f b/f\n@@ -{} +1 @@\n", usize::MAX);
    assert!(is_countable(&header));
    assert!(is_countable(&format!("{}+x\n", header)));
    assert!(!is_countable(&format!("{}-x\n", header)));
    assert!(!is_countable(&format!("{} x\n", header)));
}

#[test]
fn metadata_and_content_are_told_apart() {
    let metadata = [
        "index abc", "--- a/f", "+++ b/f", "@@ odd", "new file mode 100644", "new mode 100755",
        "old mode 100644", "deleted file mode 100644", "rename from x", "rename to y",
        "copy from x", "copy to y", "similarity index 90%", "dissimilarity index 90%",
        "Binary files a and b differ",
    ];
    for text in metadata {
        assert!(matches!(classify_line(text.to_string(), None, None), DiffLine::Metadata));
    }
    assert!(matches!(classify_line("-x".to_string(), None, None), DiffLine::Removed(_)));
    assert!(matches!(classify_line("+x".to_string(), None, None), DiffLine::Added(_)));
    assert!(matches!(classify_line("".to_string(), None, None), DiffLine::Context(_)));
    assert!(matches!(classify_line("x".to_string(), None, None), DiffLine::Context(_)));
    // What was recognised in a line comes before what it begins with
    match classify_line("+x".to_string(), Some("f".to_string()), None) {
        DiffLine::File(path) => assert_eq!(path, "f"),
        _ => panic!("no file header"),
    }
    match classify_line("+x".to_string(), None, Some(("3".to_string(), "x".to_string()))) {
        DiffLine::Hunk(base, head) => assert_eq!((base, head), (3, 1)),
        _ => panic!("no hunk header"),
    }
}

#[test]
fn notes_and_metadata_change_nothing_anywhere() {
    let lines = ["diff --git a/f b/f", "@@ -1,2 +1,2 @@", " a", "-b", "+c", " d"];
    let plain = parse_diff_output(&lines.join("\n")).unwrap();
    for note in ["\\ No newline at end of file", "index 1..2", "Binary files x differ"] {
        for at in 0..=lines.len() {
            let mut noted = lines.to_vec();
            noted.insert(at, note);
            let changes = parse_diff_output(&noted.join("\n")).unwrap();
            assert_eq!(changes.get("f"), plain.get("f"));
        }
    }
}

#[test]
fn context_stands_on_both_sides() {
    let diff = "diff --git a/f b/f\n@@ -1 +5 @@\n a\n-b\n c\n+d\n\n+e\n f\n";
    let changes = parse_diff_output(diff).unwrap();
    let (base, head) = changes.get("f").unwrap();
    let left: Vec<&String> = base.iter().map(|l| &l.1).filter(|t| !t.starts_with('-')).collect();
    let right: Vec<&String> = head.iter().map(|l| &l.1).filter(|t| !t.starts_with('+')).collect();
    assert_eq!(left, right);
    assert_eq!(left.len(), 4);
}

#[test]
fn diffs_one_after_the_other_add_up() {
    let first = "diff --git a/a b/a\n@@ -1 +1 @@\n-x\ndiff --git a/b b/b\n@@ -3 +3 @@\n+y\n";
    let second = "diff --git a/b b/b\n@@ -7 +7 @@\n+z\ndiff --git a/c b/c\n";
    let both = parse_diff_output(&format!("{}{}", first, second)).unwrap();
    let one = parse_diff_output(first).unwrap();
    let two = parse_diff_output(second).unwrap();
    assert_eq!(both.sorted_names(), vec!["a".to_string(), "b".to_string(), "c".to_string()]);
    assert_eq!(both.get("a"), one.get("a"));
    assert_eq!(both.get("b"), two.get("b"));
    assert_eq!(both.get("c"), two.get("c"));
}
