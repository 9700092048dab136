use giff::contents::apply_changes;
use giff::edits::{apply_operations, ChangeOp};
use giff::text::split_lines;

fn lines(texts: &[&str]) -> Vec<String> {
    texts.iter().map(|s| s.to_string()).collect()
}

fn replace(line: usize, content: &str) -> ChangeOp {
    ChangeOp::Replace(line, content.to_string())
}

fn insert(base_pos: usize, order: usize, content: &str) -> ChangeOp {
    ChangeOp::Insert { base_pos, order, content: content.to_string() }
}

#[test]
fn edits_are_in_base_positions() {
    let file = lines(&["one", "two", "three", "four"]);
    let ops = [ChangeOp::Delete(1), replace(3, "THREE"), insert(2, 1, "new"), ChangeOp::Delete(4)];
    assert_eq!(apply_operations(&file, &ops), lines(&["new", "two", "THREE"]));
}

#[test]
fn order_of_operations_is_of_no_account() {
    let file = lines(&["a", "b", "c"]);
    let ops = [insert(2, 5, "y"), insert(2, 4, "x"), ChangeOp::Delete(3), replace(1, "A")];
    let turned = [replace(1, "A"), ChangeOp::Delete(3), insert(2, 4, "x"), insert(2, 5, "y")];
    let result = lines(&["A", "x", "y", "b"]);
    assert_eq!(apply_operations(&file, &ops), result);
    assert_eq!(apply_operations(&file, &turned), result);
}

#[test]
fn insertions_at_one_position_follow_the_new_version() {
    let file = lines(&["a", "b"]);
    let ops = [insert(2, 3, "three"), insert(2, 1, "one"), insert(2, 2, "two")];
    assert_eq!(apply_operations(&file, &ops), lines(&["a", "one", "two", "three", "b"]));
}

#[test]
fn positions_outside_the_file_are_passed_over() {
    let file = lines(&["a", "b"]);
    let ops = [replace(0, "x"), ChangeOp::Delete(0), insert(0, 1, "x"), replace(3, "x"),
        ChangeOp::Delete(9)];
    assert_eq!(apply_operations(&file, &ops), file);
    // An insertion behind the end goes to the end
    assert_eq!(apply_operations(&file, &[insert(50, 1, "c")]), lines(&["a", "b", "c"]));
}

#[test]
fn insertion_moves_up_with_the_deletions_before_it() {
    let file = lines(&["a", "b", "c", "d"]);
    let ops = [ChangeOp::Delete(1), ChangeOp::Delete(2), insert(4, 1, "x")];
    assert_eq!(apply_operations(&file, &ops), lines(&["c", "x", "d"]));
}

#[test]
fn no_operations_leave_the_lines() {
    let file = lines(&["a", "", "b"]);
    assert_eq!(apply_operations(&file, &[]), file);
    assert_eq!(apply_operations(&[], &[insert(1, 1, "a")]), lines(&["a"]));
}

#[test]
fn insertions_past_the_end_keep_their_order() {
    let file = lines(&["a"]);
    let expected = lines(&["a", "x", "y"]);
    assert_eq!(apply_operations(&file, &[insert(5, 1, "x"), insert(5, 2, "y")]), expected);
    assert_eq!(apply_operations(&file, &[insert(5, 2, "y"), insert(5, 1, "x")]), expected);
    // Lower positions first, and those right behind the last line before them
    let ops = [insert(10, 1, "ten"), insert(5, 9, "five"), insert(2, 7, "two"), insert(3, 8, "three")];
    assert_eq!(apply_operations(&file, &ops), lines(&["a", "two", "three", "five", "ten"]));
    let deleted = [insert(9, 1, "x"), ChangeOp::Delete(1), insert(9, 2, "y"), insert(9, 3, "z")];
    assert_eq!(apply_operations(&file, &deleted), lines(&["x", "y", "z"]));
}

#[test]
fn lines_that_are_not_named_stay() {
    let file = lines(&["a", "b", "c"]);
    assert_eq!(
        apply_operations(&file, &[ChangeOp::Delete(2), ChangeOp::Delete(2)]),
        lines(&["a", "c"])
    );
    assert_eq!(
        apply_operations(&file, &[ChangeOp::Delete(3), ChangeOp::Delete(3)]),
        lines(&["a", "b"])
    );
    let many = [ChangeOp::Delete(1), ChangeOp::Delete(3), ChangeOp::Delete(1), insert(2, 1, "x")];
    assert_eq!(apply_operations(&file, &many), lines(&["x", "b"]));
}

#[test]
fn deletion_counts_over_replacement() {
    let file = lines(&["a", "b", "c"]);
    for line in 1..=3 {
        let mut expected = file.clone();
        expected.remove(line - 1);
        let given = [
            vec![ChangeOp::Delete(line), replace(line, "x")],
            vec![replace(line, "x"), ChangeOp::Delete(line)],
            vec![replace(line, "x"), ChangeOp::Delete(line), replace(line, "y")],
        ];
        for ops in given {
            assert_eq!(apply_operations(&file, &ops), expected);
        }
    }
}

#[test]
fn last_replacement_of_a_line_counts() {
    let file = lines(&["a", "b"]);
    assert_eq!(
        apply_operations(&file, &[replace(2, "x"), replace(2, "y")]),
        lines(&["a", "y"])
    );
    assert_eq!(
        apply_operations(&file, &[replace(2, "x"), replace(1, "z"), replace(2, "y")]),
        lines(&["z", "y"])
    );
}

#[test]
fn edits_add_up_to_the_length() {
    let file = lines(&["a", "b", "c", "d"]);
    let ops = [
        ChangeOp::Delete(3),
        insert(0, 1, "none"),
        replace(3, "x"),
        insert(9, 1, "last"),
        ChangeOp::Delete(1),
        ChangeOp::Delete(9),
        ChangeOp::Delete(0),
        replace(2, "y"),
        insert(1, 1, "first"),
        replace(9, "z"),
    ];
    // Four lines, less two, and two more
    assert_eq!(apply_operations(&file, &ops), lines(&["first", "y", "d", "last"]));
}

#[test]
fn clones_are_equal_operations() {
    let file = lines(&["a"]);
    let op = insert(1, 2, "x");
    assert_eq!(op.line_num(), 1);
    assert_eq!(apply_operations(&file, &[op.clone()]), apply_operations(&file, &[op]));
}

#[test]
fn ending_of_a_file_is_kept() {
    assert_eq!(apply_changes("a\nb\n", &[replace(1, "x")]), Some("x\nb\n".to_string()));
    assert_eq!(apply_changes("a\nb", &[replace(1, "x")]), Some("x\nb".to_string()));
    assert_eq!(apply_changes("a\n", &[ChangeOp::Delete(1)]), Some("\n".to_string()));
    assert_eq!(apply_changes("", &[insert(1, 1, "a")]), Some("a".to_string()));
}

#[test]
fn nothing_to_do_writes_nothing() {
    assert_eq!(apply_changes("a\nb\n", &[]), None);
}

#[test]
fn file_comes_back_from_its_lines() {
    // An edit without effect gives the file back
    for content in ["", "a", "a\n", "\n\n", "a\n\nb", "a\rb\n"] {
        assert_eq!(apply_changes(content, &[ChangeOp::Delete(0)]), Some(content.to_string()));
    }
    // but for carriage returns before newlines
    assert_eq!(apply_changes("a\r\nb\r\n", &[ChangeOp::Delete(0)]), Some("a\nb\n".to_string()));
}

#[test]
fn written_lines_are_read_again() {
    let edited = apply_changes("a\nb\nc\n", &[ChangeOp::Delete(2), insert(1, 1, "first")]).unwrap();
    assert_eq!(split_lines(&edited), lines(&["first", "a", "c"]));
    // A file without a newline at its end loses an empty last line
    let lost = apply_changes("a\nb", &[replace(2, "")]).unwrap();
    assert_eq!(lost, "a\n");
    assert_eq!(split_lines(&lost), lines(&["a"]));
}
