use giff::comment::{comment_accepts, edit_comment, finished_comment};
use giff::input::Key;
use giff::state::CommentInput;

fn comment(text: &str, cursor_pos: usize) -> CommentInput {
    CommentInput {
        file: "f.rs".to_string(),
        line_num: 12,
        line_content: "let x;".to_string(),
        text: text.to_string(),
        cursor_pos,
    }
}

fn after(text: &str, cursor_pos: usize, key: Key) -> (String, usize) {
    let mut c = comment(text, cursor_pos);
    assert!(comment_accepts(&c, key));
    edit_comment(&mut c, key);
    (c.text, c.cursor_pos)
}

fn at(text: &str, cursor_pos: usize) -> (String, usize) {
    (text.to_string(), cursor_pos)
}

#[test]
fn characters_go_in_at_the_cursor() {
    assert_eq!(after("", 0, Key::Char('a')), at("a", 1));
    assert_eq!(after("ac", 1, Key::Char('b')), at("abc", 2));
    assert_eq!(after("ab", 2, Key::Char('c')), at("abc", 3));
    // The cursor moves by one byte, whatever the character takes
    assert_eq!(after("ab", 1, Key::Char('é')), at("aéb", 2));
    assert_eq!(after("éb", 2, Key::Char('x')), at("éxb", 3));
}

#[test]
fn backspace_takes_out_the_character_before_the_cursor() {
    assert_eq!(after("abc", 2, Key::Backspace), at("ac", 1));
    assert_eq!(after("abc", 0, Key::Backspace), at("abc", 0));
    assert_eq!(after("abc", 3, Key::Backspace), at("ab", 2));
    // A wide character is taken out from behind its first byte
    assert_eq!(after("é", 1, Key::Backspace), at("", 0));
}

#[test]
fn delete_takes_out_the_character_at_the_cursor() {
    assert_eq!(after("abc", 1, Key::Delete), at("ac", 1));
    assert_eq!(after("abc", 3, Key::Delete), at("abc", 3));
    assert_eq!(after("aéc", 1, Key::Delete), at("ac", 1));
}

#[test]
fn cursor_moves_by_bytes() {
    assert_eq!(after("ab", 1, Key::Left), at("ab", 0));
    assert_eq!(after("ab", 0, Key::Left), at("ab", 0));
    assert_eq!(after("ab", 1, Key::Right), at("ab", 2));
    assert_eq!(after("ab", 2, Key::Right), at("ab", 2));
    assert_eq!(after("é", 0, Key::Right), at("é", 1));
    assert_eq!(after("aé€😀", 3, Key::Home), at("aé€😀", 0));
    assert_eq!(after("aé€😀", 3, Key::End), at("aé€😀", 10));
    assert_eq!(after("ab", 1, Key::Tab), at("ab", 1));
}

#[test]
fn keys_between_the_bytes_of_a_character_are_refused() {
    assert!(!comment_accepts(&comment("é", 1), Key::Char('x')));
    assert!(!comment_accepts(&comment("é", 1), Key::Delete));
    assert!(!comment_accepts(&comment("é", 2), Key::Backspace));
    assert!(!comment_accepts(&comment("a", 2), Key::Char('x')));
    assert!(!comment_accepts(&comment("a", 2), Key::Backspace));
    assert!(comment_accepts(&comment("a", 2), Key::Delete));
    assert!(comment_accepts(&comment("é", 2), Key::Char('x')));
}

#[test]
fn backspace_undoes_a_character() {
    for pos in 0..4 {
        let mut c = comment("abc", pos);
        edit_comment(&mut c, Key::Char('x'));
        edit_comment(&mut c, Key::Backspace);
        assert_eq!((c.text.as_str(), c.cursor_pos), ("abc", pos));
    }
    let mut wide = comment("é", 2);
    edit_comment(&mut wide, Key::Char('€'));
    assert_eq!((wide.text.as_str(), wide.cursor_pos), ("é€", 3));
    edit_comment(&mut wide, Key::Backspace);
    assert_eq!((wide.text.as_str(), wide.cursor_pos), ("é", 2));
}

#[test]
fn finished_comment_names_its_line() {
    assert_eq!(
        finished_comment(&comment(" a b ", 0)),
        Some("[giff] f.rs:12: \"let x;\" —  a b ".to_string())
    );
    assert_eq!(finished_comment(&comment("", 0)), None);
    assert_eq!(finished_comment(&comment(" \t\n", 0)), None);
}
