use giff::labels::{extract_left_label, extract_right_label};

#[test]
fn left_label_from_range() {
    assert_eq!(extract_left_label("main..feature"), "main");
}

#[test]
fn right_label_from_range() {
    assert_eq!(extract_right_label("main..feature"), "feature");
}

#[test]
fn left_label_no_dots_returns_input() {
    // No ".." means the whole string is the left side
    assert_eq!(extract_left_label("--cached"), "--cached");
}

#[test]
fn right_label_no_dots_returns_default() {
    // No ".." means there is no right side
    assert_eq!(extract_right_label("--cached"), "Target");
}

#[test]
fn labels_with_empty_sides() {
    // "..feature" → left side is empty → default
    assert_eq!(extract_left_label("..feature"), "Base");
    // "main.." → right side is empty → default
    assert_eq!(extract_right_label("main.."), "Target");
}

#[test]
fn labels_trim_whitespace() {
    assert_eq!(extract_left_label(" main .. feature "), "main");
    assert_eq!(extract_right_label(" main .. feature "), "feature");
}

#[test]
fn labels_of_nothing_are_defaults() {
    assert_eq!(extract_left_label(""), "Base");
    assert_eq!(extract_right_label(""), "Target");
    assert_eq!(extract_left_label("  .."), "Base");
}

#[test]
fn third_part_of_a_range_is_no_label() {
    assert_eq!(extract_left_label("a..b..c"), "a");
    assert_eq!(extract_right_label("a..b..c"), "b");
    // Three dots: the right side begins with the third
    assert_eq!(extract_right_label("a...b"), ".b");
}
