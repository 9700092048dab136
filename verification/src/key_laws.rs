//! What each key and the wheel of the mouse do.

use vstd::prelude::*;
use vstd::utf8::encode_utf8;

use crate::comment::{
    begins_at, can_edit, char_index, comment_message, edited, is_boundary, is_worth_sending,
    lemma_char_index_is,
};
use crate::input::{page_of, Key, LayoutView, Mouse, MouseKind, Size, Task};
use crate::keys::{key_step, next_theme, takes_key};
use crate::mouse::mouse_step;
use crate::moves::{
    cursor_shown, decided, line_at_cursor, line_total, navigated, scroll_of, scrolled_to,
};
use crate::outcome::{comment_ended, rebase_ended, RebaseEnd};
use crate::state::{AppMode, AppView, ChangeState, Comment, Pane, ViewMode};
use crate::text::{numeral, trimmed, white_space};
use crate::text_laws::{is_blank, trimming_leaves_the_middle};

verus! {

/// Nothing stands in front of the diff, and no comment is being written.
pub open spec fn is_open(a: AppView) -> bool {
    !a.show_help_modal && !a.show_rebase_modal && a.comment_input is None
}

/// The state without a message.
pub open spec fn quiet(a: AppView) -> AppView {
    AppView { status_message: None, ..a }
}

/// A number no lower than zero and no higher than the last place of a list.
pub open spec fn within(n: int, len: int) -> usize {
    if n < 0 || len <= 0 {
        0
    } else if n >= len {
        (len - 1) as usize
    } else {
        n as usize
    }
}

/// So many steps back, to zero at the furthest.
pub open spec fn before(n: int, steps: int) -> usize {
    if n < steps {
        0
    } else {
        (n - steps) as usize
    }
}

/// How many lines of a diff fit a screen: six are taken by what is around it.
pub proof fn page_leaves_out_the_frame(height: u16)
    ensures
        height >= 6 ==> page_of(height) == height - 6,
        height < 6 ==> page_of(height) == 0,
{
}

// ---- reading a diff ----

/// The keys that mean the same wherever the focus is, while a diff is read.
pub proof fn keys_while_reading(a: AppView, l: LayoutView)
    requires
        is_open(a),
        a.app_mode == AppMode::Diff,
    ensures
        key_step(a, Key::Char('q'), l) == (quiet(a), Task::Quit(false)),
        key_step(a, Key::Esc, l) == (quiet(a), Task::Quit(false)),
        key_step(a, Key::Char('r'), l) == (
            AppView { app_mode: AppMode::Rebase, ..quiet(a) },
            Task::PrepareRebase,
        ),
        key_step(a, Key::Char('h'), l) == (
            AppView { focused_pane: Pane::FileList, ..quiet(a) },
            Task::Continue,
        ),
        key_step(a, Key::Left, l) == key_step(a, Key::Char('h'), l),
        key_step(a, Key::Char('l'), l) == (
            AppView { focused_pane: Pane::DiffContent, ..quiet(a) },
            Task::Continue,
        ),
        key_step(a, Key::Right, l) == key_step(a, Key::Char('l'), l),
        a.focused_pane == Pane::FileList ==> key_step(a, Key::Tab, l) == (
            AppView { focused_pane: Pane::DiffContent, ..quiet(a) },
            Task::Continue,
        ),
        a.focused_pane == Pane::DiffContent ==> key_step(a, Key::Tab, l) == (
            AppView { focused_pane: Pane::FileList, ..quiet(a) },
            Task::Continue,
        ),
        a.view_mode == ViewMode::SideBySide ==> key_step(a, Key::Char('u'), l) == (
            AppView { view_mode: ViewMode::Unified, ..quiet(a) },
            Task::Continue,
        ),
        a.view_mode == ViewMode::Unified ==> key_step(a, Key::Char('u'), l) == (
            AppView { view_mode: ViewMode::SideBySide, ..quiet(a) },
            Task::Continue,
        ),
        key_step(a, Key::Char('?'), l) == (
            AppView { show_help_modal: true, ..quiet(a) },
            Task::Continue,
        ),
        key_step(a, Key::Char('t'), l) == (next_theme(quiet(a)), Task::Continue),
        key_step(a, Key::Char('j'), l) == key_step(a, Key::Down, l),
        key_step(a, Key::Char('k'), l) == key_step(a, Key::Up, l),
{
}

/// The keys that mean nothing while a diff is read.
pub proof fn other_keys_do_nothing_while_reading(a: AppView, key: Key, l: LayoutView)
    requires
        is_open(a),
        a.app_mode == AppMode::Diff,
        match key {
            Key::Char(c) => !"qrchljkut?"@.contains(c),
            Key::Enter | Key::Backspace | Key::Delete | Key::Other => true,
            _ => false,
        },
    ensures
        key_step(a, key, l) == (quiet(a), Task::Continue),
{
    lemma_reading_keys();
}

proof fn lemma_reading_keys()
    ensures
        forall|c: char|
            (#[trigger] "qrchljkut?"@.contains(c)) <==> c == 'q' || c == 'r' || c == 'c' || c == 'h'
                || c == 'l' || c == 'j' || c == 'k' || c == 'u' || c == 't' || c == '?',
{
    reveal_strlit("qrchljkut?");
    let s = "qrchljkut?"@;
    assert(s.len() == 10);
    assert(s[0] == 'q' && s[1] == 'r' && s[2] == 'c' && s[3] == 'h' && s[4] == 'l' && s[5] == 'j'
        && s[6] == 'k' && s[7] == 'u' && s[8] == 't' && s[9] == '?');
}

/// The key for a comment begins an empty one on the line under the cursor, and
/// does nothing where there is no line.
pub proof fn comments_begin_empty(a: AppView, l: LayoutView)
    requires
        is_open(a),
        a.app_mode == AppMode::Diff,
    ensures
        match line_at_cursor(a, l.aligned_head, l.unified_lines) {
            Some((file, line_num, line_content)) => key_step(a, Key::Char('c'), l) == (
                AppView {
                    comment_input: Some(
                        Comment {
                            file,
                            line_num,
                            line_content,
                            text: Seq::empty(),
                            cursor_pos: 0,
                        },
                    ),
                    ..quiet(a)
                },
                Task::Continue,
            ),
            None => key_step(a, Key::Char('c'), l) == (quiet(a), Task::Continue),
        },
{
    assert(line_at_cursor(quiet(a), l.aligned_head, l.unified_lines) == line_at_cursor(
        a,
        l.aligned_head,
        l.unified_lines,
    ));
}

/// While the list of files has the focus, the keys move by a file, by a page or
/// to either end, and never out of the list. A move by one file brings the
/// cursor to its first line.
pub proof fn keys_in_the_list_of_files(a: AppView, l: LayoutView)
    requires
        is_open(a),
        a.app_mode == AppMode::Diff,
        a.focused_pane == Pane::FileList,
        a.file_names.len() <= usize::MAX,
    ensures
        ({
            let len = a.file_names.len() as int;
            let i = a.current_file_idx as int;
            let page = if l.height >= 6 {
                l.height - 6
            } else {
                0
            };
            let at = |n: int| (
                AppView { current_file_idx: within(n, len), ..quiet(a) },
                Task::Continue,
            );
            &&& i + 1 < len ==> key_step(a, Key::Down, l) == (
                AppView { current_file_idx: (i + 1) as usize, cursor_line: 0, ..quiet(a) },
                Task::Continue,
            )
            &&& i + 1 >= len ==> key_step(a, Key::Down, l) == (quiet(a), Task::Continue)
            &&& i > 0 ==> key_step(a, Key::Up, l) == (
                AppView { current_file_idx: (i - 1) as usize, cursor_line: 0, ..quiet(a) },
                Task::Continue,
            )
            &&& i == 0 ==> key_step(a, Key::Up, l) == (quiet(a), Task::Continue)
            &&& key_step(a, Key::PageDown, l) == at(i + page)
            &&& key_step(a, Key::PageUp, l) == (
                AppView { current_file_idx: before(i, page), ..quiet(a) },
                Task::Continue,
            )
            &&& key_step(a, Key::Home, l) == at(0)
            &&& key_step(a, Key::End, l) == at(len - 1)
        }),
{
}

/// While the content of a diff has the focus, the keys move the cursor by a
/// line, by a page or to either end, and never out of the content, and the file
/// is scrolled along.
pub proof fn keys_in_the_content(a: AppView, l: LayoutView)
    requires
        is_open(a),
        a.app_mode == AppMode::Diff,
        a.focused_pane == Pane::DiffContent,
    ensures
        ({
            let total = line_total(a, l.aligned_count, l.unified_count) as int;
            let i = a.cursor_line as int;
            let page = if l.height >= 6 {
                l.height - 6
            } else {
                0
            };
            let at = |n: int| (
                cursor_shown(AppView { cursor_line: n as usize, ..quiet(a) }, page as usize),
                Task::Continue,
            );
            &&& i + 1 < total ==> key_step(a, Key::Down, l) == at(i + 1)
            &&& i + 1 >= total ==> key_step(a, Key::Down, l) == (quiet(a), Task::Continue)
            &&& i > 0 ==> key_step(a, Key::Up, l) == at(i - 1)
            &&& i == 0 ==> key_step(a, Key::Up, l) == (quiet(a), Task::Continue)
            &&& key_step(a, Key::PageDown, l) == at(within(i + page, total) as int)
            &&& key_step(a, Key::PageUp, l) == at(before(i, page) as int)
            &&& key_step(a, Key::Home, l) == (
                scrolled_to(AppView { cursor_line: 0, ..quiet(a) }, 0),
                Task::Continue,
            )
            &&& key_step(a, Key::End, l) == (
                scrolled_to(
                    AppView { cursor_line: within(total - 1, total), ..quiet(a) },
                    usize::MAX,
                ),
                Task::Continue,
            )
        }),
{
    assert(line_total(quiet(a), l.aligned_count, l.unified_count) == line_total(
        a,
        l.aligned_count,
        l.unified_count,
    ));
}

/// The colours change to the next set, and after the last one to the first.
pub proof fn colours_go_round(a: AppView)
    requires
        a.theme_cycle.len() <= usize::MAX,
    ensures
        a.theme_cycle.len() == 0 ==> next_theme(a) == a,
        a.theme_cycle_idx + 1 < a.theme_cycle.len() ==> next_theme(a) == (AppView {
            theme_cycle_idx: (a.theme_cycle_idx + 1) as usize,
            theme: a.theme_cycle[a.theme_cycle_idx + 1],
            ..a
        }),
        a.theme_cycle_idx + 1 == a.theme_cycle.len() ==> next_theme(a) == (AppView {
            theme_cycle_idx: 0,
            theme: a.theme_cycle[0],
            ..a
        }),
        a.theme_cycle.len() > 0 ==> {
            let b = next_theme(a);
            &&& b.theme_cycle_idx == (a.theme_cycle_idx + 1) % a.theme_cycle.len() as int
            &&& b == AppView {
                theme_cycle_idx: b.theme_cycle_idx,
                theme: a.theme_cycle[b.theme_cycle_idx as int],
                ..a
            }
        },
{
    let len = a.theme_cycle.len();
    if len > 0 {
        vstd::arithmetic::div_mod::lemma_mod_bound(a.theme_cycle_idx + 1, len as int);
    }
    if a.theme_cycle_idx + 1 < len {
        vstd::arithmetic::div_mod::lemma_small_mod((a.theme_cycle_idx + 1) as nat, len);
    } else if a.theme_cycle_idx + 1 == len {
        vstd::arithmetic::div_mod::lemma_mod_self_0(len as int);
    }
}

// ---- choosing changes ----

/// The keys while changes are chosen.
pub proof fn keys_while_choosing(a: AppView, l: LayoutView)
    requires
        is_open(a),
        a.app_mode == AppMode::Rebase,
    ensures
        key_step(a, Key::Char('q'), l) == (
            AppView { app_mode: AppMode::Diff, ..quiet(a) },
            Task::Continue,
        ),
        key_step(a, Key::Esc, l) == key_step(a, Key::Char('q'), l),
        key_step(a, Key::Char('a'), l) == (
            decided(quiet(a), ChangeState::Accepted),
            Task::Continue,
        ),
        key_step(a, Key::Char('x'), l) == (
            decided(quiet(a), ChangeState::Rejected),
            Task::Continue,
        ),
        key_step(a, Key::Char('c'), l) == (quiet(a), Task::CommitChanges),
        key_step(a, Key::Char('n'), l) == (navigated(quiet(a), true), Task::Continue),
        key_step(a, Key::Char('p'), l) == (navigated(quiet(a), false), Task::Continue),
        key_step(a, Key::Char('t'), l) == (next_theme(quiet(a)), Task::Continue),
        key_step(a, Key::Char('?'), l) == (
            AppView { show_help_modal: true, ..quiet(a) },
            Task::Continue,
        ),
        key_step(a, Key::Char('j'), l) == key_step(a, Key::Down, l),
        key_step(a, Key::Char('k'), l) == key_step(a, Key::Up, l),
{
}

/// The keys that mean nothing while changes are chosen.
pub proof fn other_keys_do_nothing_while_choosing(a: AppView, key: Key, l: LayoutView)
    requires
        is_open(a),
        a.app_mode == AppMode::Rebase,
        match key {
            Key::Char(c) => !"qaxcnpt?jk"@.contains(c),
            Key::Enter | Key::Backspace | Key::Delete | Key::Other | Key::Tab | Key::Left
            | Key::Right => true,
            _ => false,
        },
    ensures
        key_step(a, key, l) == (quiet(a), Task::Continue),
{
    lemma_choosing_keys();
}

proof fn lemma_choosing_keys()
    ensures
        forall|c: char|
            (#[trigger] "qaxcnpt?jk"@.contains(c)) <==> c == 'q' || c == 'a' || c == 'x' || c == 'c'
                || c == 'n' || c == 'p' || c == 't' || c == '?' || c == 'j' || c == 'k',
{
    reveal_strlit("qaxcnpt?jk");
    let s = "qaxcnpt?jk"@;
    assert(s.len() == 10);
    assert(s[0] == 'q' && s[1] == 'a' && s[2] == 'x' && s[3] == 'c' && s[4] == 'n' && s[5] == 'p'
        && s[6] == 't' && s[7] == '?' && s[8] == 'j' && s[9] == 'k');
}

/// How many changes there are to decide about in the file that the user is at.
pub open spec fn change_count(a: AppView) -> int {
    if a.current_file_idx < a.file_names.len() && a.rebase_changes.contains_key(
        a.file_names[a.current_file_idx as int],
    ) {
        a.rebase_changes[a.file_names[a.current_file_idx as int]].len() as int
    } else {
        0
    }
}

/// While changes are chosen the keys move by a change, by a page or to either
/// end of those of the file, and never out of them.
pub proof fn keys_in_the_list_of_changes(a: AppView, l: LayoutView)
    requires
        is_open(a),
        a.app_mode == AppMode::Rebase,
        change_count(a) <= usize::MAX,
    ensures
        ({
            let len = change_count(a);
            let i = a.current_change_idx as int;
            let page = if l.height >= 6 {
                l.height - 6
            } else {
                0
            };
            let at = |n: usize| (
                AppView { current_change_idx: n, ..quiet(a) },
                Task::Continue,
            );
            &&& i + 1 < len ==> key_step(a, Key::Down, l) == at((i + 1) as usize)
            &&& i + 1 >= len ==> key_step(a, Key::Down, l) == at(i as usize)
            &&& key_step(a, Key::Up, l) == at(before(i, 1))
            &&& len > 0 ==> key_step(a, Key::PageDown, l) == at(within(i + page, len))
            &&& len == 0 ==> key_step(a, Key::PageDown, l) == at(i as usize)
            &&& key_step(a, Key::PageUp, l) == at(before(i, page))
            &&& key_step(a, Key::Home, l) == at(0)
            &&& len > 0 ==> key_step(a, Key::End, l) == at((len - 1) as usize)
            &&& len == 0 ==> key_step(a, Key::End, l) == at(i as usize)
        }),
{
}

// ---- in front of the diff ----

/// The help goes with three keys, and no other does anything while it is shown.
pub proof fn keys_while_help_is_shown(a: AppView, key: Key, l: LayoutView)
    requires
        a.show_help_modal,
    ensures
        key_step(a, key, l) == if key == Key::Esc || key == Key::Char('?') || key == Key::Char(
            'q',
        ) {
            (AppView { show_help_modal: false, ..quiet(a) }, Task::Continue)
        } else {
            (quiet(a), Task::Continue)
        },
{
}

/// A rebase that is proposed is run with one key and turned down with two.
pub proof fn keys_while_a_rebase_is_proposed(a: AppView, key: Key, l: LayoutView)
    requires
        !a.show_help_modal,
        a.show_rebase_modal,
    ensures
        key_step(a, key, l) == if key == Key::Char('r') {
            (quiet(a), Task::RunRebase)
        } else if key == Key::Char('i') || key == Key::Esc {
            (AppView { show_rebase_modal: false, ..quiet(a) }, Task::Continue)
        } else {
            (quiet(a), Task::Continue)
        },
{
}

/// While a comment is written, one key gives it up and one sends it, if it says
/// anything; every other key edits it.
pub proof fn keys_while_a_comment_is_written(a: AppView, c: Comment, key: Key, l: LayoutView)
    requires
        !a.show_help_modal,
        !a.show_rebase_modal,
        a.comment_input == Some(c),
    ensures
        key == Key::Esc ==> key_step(a, key, l) == (
            AppView { comment_input: None, ..quiet(a) },
            Task::Continue,
        ),
        key == Key::Enter && is_blank(c.text) ==> key_step(a, key, l) == (
            AppView { comment_input: None, ..quiet(a) },
            Task::Continue,
        ),
        key == Key::Enter && !is_blank(c.text) ==> key_step(a, key, l) == (
            AppView { comment_input: None, ..quiet(a) },
            Task::SendComment(comment_message(c)),
        ),
        key != Key::Esc && key != Key::Enter ==> key_step(a, key, l) == (
            AppView { comment_input: Some(edited(c, key)), ..quiet(a) },
            Task::Continue,
        ),
{
    lemma_worth_sending(c);
}

proof fn lemma_worth_sending(c: Comment)
    ensures
        is_worth_sending(c) <==> !is_blank(c.text),
{
    let s = c.text;
    let m = trimmed(s);
    trimming_leaves_the_middle(s);
    let (a, b) = choose|a: Seq<char>, b: Seq<char>|
        is_blank(a) && is_blank(b) && s == #[trigger] (a + m + b);
    if m.len() > 0 {
        assert(s[a.len() as int] == m[0]);
    } else {
        assert forall|i: int| 0 <= i < s.len() implies white_space(#[trigger] s[i]) by {
            if i < a.len() {
                assert(s[i] == a[i]);
            } else {
                assert(s[i] == b[i - a.len()]);
            }
        }
    }
}

/// What is sent says where the comment belongs, what the line is, and what the
/// comment says.
pub proof fn messages_say_what_and_where(c: Comment)
    ensures
        comment_message(c) == "[giff] "@ + c.file + ":"@ + numeral(c.line_num as nat) + ": \""@
            + c.line_content + "\" — "@ + c.text,
{
}

/// A key is taken wherever something stands in front of the diff; in a comment,
/// where it can be edited so; and elsewhere, if the line of the cursor has a
/// number behind it.
pub proof fn keys_are_taken(a: AppView, key: Key, l: LayoutView)
    ensures
        a.show_help_modal || a.show_rebase_modal ==> takes_key(a, key, l),
        !a.show_help_modal && !a.show_rebase_modal && a.comment_input is Some ==> takes_key(
            a,
            key,
            l,
        ) == can_edit(a.comment_input->0, key),
        is_open(a) && (a.cursor_line < usize::MAX || a.focused_pane == Pane::FileList || a.app_mode
            == AppMode::Rebase || key != Key::Down && key != Key::Char('j') && key != Key::PageUp)
            ==> takes_key(a, key, l),
{
}

// ---- the text of a comment ----

/// A character goes in where the cursor is, and the cursor goes one byte on.
pub proof fn typing_puts_in_a_character(c: Comment, x: Seq<char>, ch: char, y: Seq<char>)
    requires
        c.text == x + y,
        encode_utf8(x).len() == c.cursor_pos,
        c.cursor_pos < usize::MAX,
    ensures
        can_edit(c, Key::Char(ch)),
        edited(c, Key::Char(ch)) == (Comment {
            text: x + seq![ch] + y,
            cursor_pos: (c.cursor_pos + 1) as usize,
            ..c
        }),
{
    lemma_cursor(c.text, x, y);
    assert(c.text.insert(x.len() as int, ch) =~= x + seq![ch] + y);
}

/// The character that begins one byte before the cursor is taken out, and the
/// cursor is where it was. At the start there is none.
pub proof fn backspace_takes_out_the_one_before(c: Comment, x: Seq<char>, ch: char, y: Seq<char>)
    ensures
        c.cursor_pos == 0 ==> edited(c, Key::Backspace) == c,
        c.text == x + seq![ch] + y && encode_utf8(x).len() + 1 == c.cursor_pos ==> can_edit(
            c,
            Key::Backspace,
        ) && edited(c, Key::Backspace) == (Comment {
            text: x + y,
            cursor_pos: (c.cursor_pos - 1) as usize,
            ..c
        }),
{
    if c.text == x + seq![ch] + y {
        assert(c.text =~= x + (seq![ch] + y));
        lemma_cursor(c.text, x, seq![ch] + y);
        crate::comment::lemma_encode_concat(x, seq![ch] + y);
        lemma_takes_bytes(ch, y);
        assert(c.text.remove(x.len() as int) =~= x + y);
    }
}

/// The character at the cursor is taken out, and the cursor stays. At the end
/// there is none.
pub proof fn delete_takes_out_the_one_behind(c: Comment, x: Seq<char>, ch: char, y: Seq<char>)
    ensures
        c.cursor_pos >= encode_utf8(c.text).len() ==> edited(c, Key::Delete) == c,
        c.text == x + seq![ch] + y && encode_utf8(x).len() == c.cursor_pos ==> can_edit(
            c,
            Key::Delete,
        ) && edited(c, Key::Delete) == (Comment { text: x + y, ..c }),
{
    if c.text == x + seq![ch] + y {
        assert(c.text =~= x + (seq![ch] + y));
        lemma_cursor(c.text, x, seq![ch] + y);
        crate::comment::lemma_encode_concat(x, seq![ch] + y);
        lemma_takes_bytes(ch, y);
        assert(c.text.remove(x.len() as int) =~= x + y);
    }
}

proof fn lemma_takes_bytes(ch: char, y: Seq<char>)
    ensures
        encode_utf8(seq![ch] + y).len() > 0,
{
    crate::comment::lemma_next_offset(seq![ch] + y, 0);
    crate::comment::lemma_encode_concat(seq![ch], y);
    assert((seq![ch] + y).take(1) =~= seq![ch]);
}

proof fn lemma_cursor(s: Seq<char>, x: Seq<char>, y: Seq<char>)
    requires
        s == x + y,
    ensures
        is_boundary(s, encode_utf8(x).len() as int),
        char_index(s, encode_utf8(x).len() as int) == x.len(),
{
    assert(s.take(x.len() as int) =~= x);
    assert(begins_at(s, x.len() as int, encode_utf8(x).len() as int));
    lemma_char_index_is(s, x.len() as int, encode_utf8(x).len() as int);
}

/// The other keys move the cursor by a byte or to either end of the text, never
/// out of it, and leave the text as it is.
pub proof fn cursor_moves_in_the_text(c: Comment)
    requires
        encode_utf8(c.text).len() <= usize::MAX,
    ensures
        edited(c, Key::Home) == (Comment { cursor_pos: 0, ..c }),
        edited(c, Key::End) == (Comment { cursor_pos: encode_utf8(c.text).len() as usize, ..c }),
        c.cursor_pos > 0 ==> edited(c, Key::Left) == (Comment {
            cursor_pos: (c.cursor_pos - 1) as usize,
            ..c
        }),
        c.cursor_pos == 0 ==> edited(c, Key::Left) == c,
        c.cursor_pos < encode_utf8(c.text).len() ==> edited(c, Key::Right) == (Comment {
            cursor_pos: (c.cursor_pos + 1) as usize,
            ..c
        }),
        c.cursor_pos >= encode_utf8(c.text).len() ==> edited(c, Key::Right) == c,
        edited(c, Key::Up) == c,
        edited(c, Key::Down) == c,
        edited(c, Key::PageUp) == c,
        edited(c, Key::PageDown) == c,
        edited(c, Key::Tab) == c,
        edited(c, Key::Enter) == c,
        edited(c, Key::Esc) == c,
        edited(c, Key::Other) == c,
{
}

// ---- what the user is told ----

/// How a rebase ends.
pub proof fn rebases_end_so(a: AppView, reason: Seq<char>)
    ensures
        rebase_ended(a, RebaseEnd::Rebased) == (
            AppView { show_rebase_modal: false, ..a },
            Task::Quit(true),
        ),
        rebase_ended(a, RebaseEnd::RolledBack) == (
            AppView {
                rebase_notification: Some("Rebase failed due to conflicts and was rolled back."@),
                ..a
            },
            Task::Continue,
        ),
        rebase_ended(a, RebaseEnd::NoUpstream) == (
            AppView {
                show_rebase_modal: false,
                status_message: Some("No upstream branch configured."@),
                ..a
            },
            Task::Continue,
        ),
        rebase_ended(a, RebaseEnd::Failed(reason)) == (
            AppView {
                show_rebase_modal: false,
                status_message: Some("Error: "@ + reason),
                ..a
            },
            Task::Continue,
        ),
{
}

/// How sending a comment ends.
pub proof fn comments_end_so(a: AppView, agent: Seq<char>, reason: Seq<char>)
    ensures
        comment_ended(a, agent, None) == (AppView {
            status_message: Some("Comment sent to "@ + agent),
            ..a
        }),
        comment_ended(a, agent, Some(reason)) == (AppView {
            status_message: Some("Error: "@ + reason),
            ..a
        }),
{
}

// ---- the mouse ----

/// Outside the frame, behind something, and for anything but its wheel the
/// mouse does nothing.
pub proof fn mouse_does_nothing_elsewhere(a: AppView, mouse: Mouse, size: Size)
    requires
        a.show_help_modal || a.show_rebase_modal || mouse.kind == MouseKind::Other || mouse.row
            == 0 || mouse.row + 1 >= size.height,
    ensures
        mouse_step(a, mouse, size) == a,
{
}

/// The wheel moves by three, down or up: over the first fifth of the screen in
/// the list of files, elsewhere in the content of the diff; and in the changes
/// while they are chosen.
pub proof fn wheel_moves_by_three(a: AppView, mouse: Mouse, size: Size)
    requires
        !a.show_help_modal,
        !a.show_rebase_modal,
        mouse.kind != MouseKind::Other,
        0 < mouse.row && mouse.row + 1 < size.height,
        a.file_names.len() <= usize::MAX,
        change_count(a) <= usize::MAX,
    ensures
        ({
            let b = mouse_step(a, mouse, size);
            let down = mouse.kind == MouseKind::ScrollDown;
            let over_list = mouse.column < size.width / 5;
            let len = a.file_names.len() as int;
            let i = a.current_file_idx as int;
            let k = a.current_change_idx as int;
            &&& a.app_mode == AppMode::Diff && over_list ==> b == (AppView {
                current_file_idx: if len == 0 {
                    a.current_file_idx
                } else if down {
                    within(i + 3, len)
                } else {
                    before(i, 3)
                },
                ..a
            })
            &&& a.app_mode == AppMode::Diff && !over_list && i >= len ==> b == a
            &&& a.app_mode == AppMode::Diff && !over_list && i < len ==> {
                let top = scroll_of(a, a.file_names[i]);
                b == scrolled_to(
                    a,
                    if !down {
                        before(top as int, 3)
                    } else if top + 3 > usize::MAX {
                        usize::MAX
                    } else {
                        (top + 3) as usize
                    },
                )
            }
            &&& a.app_mode == AppMode::Rebase ==> b == (AppView {
                current_change_idx: if change_count(a) == 0 {
                    a.current_change_idx
                } else if down {
                    within(k + 3, change_count(a))
                } else {
                    before(k, 3)
                },
                ..a
            })
        }),
{
}

} // verus!
