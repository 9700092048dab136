//! Moving between changes, files and lines.

use vstd::arithmetic::div_mod::{lemma_add_mod_noop, lemma_mod_add_multiples_vanish, lemma_small_mod};
use vstd::prelude::*;

use crate::parse::{numbered, LineChange};
use crate::state::{
    change_lists, current_changes, current_file, App, AppView, Change, ChangeState, ViewMode,
};
use crate::text::{from_chars, to_chars};

verus! {

// ---- deciding about changes ----

/// The change that the user is at gets a state, and the user goes on to the
/// next change of the file, if there is one.
pub open spec fn decided(a: AppView, state: ChangeState) -> AppView {
    match current_changes(a) {
        Some(changes) => if a.current_change_idx < changes.len() {
            let i = a.current_change_idx as int;
            AppView {
                rebase_changes: a.rebase_changes.insert(
                    current_file(a)->0,
                    changes.update(i, Change { state, ..changes[i] }),
                ),
                current_change_idx: if i < changes.len() - 1 {
                    (i + 1) as usize
                } else {
                    a.current_change_idx
                },
                ..a
            }
        } else {
            a
        },
        None => a,
    }
}

/// Decides about the change that the user is at, and goes on to the next one.
pub fn set_change_state(app: &mut App, state: ChangeState)
    ensures
        final(app)@ == decided(old(app)@, state),
{
    let i: usize = app.current_change_idx;
    let file: String = match app.current_file() {
        Some(file) => file.clone(),
        None => {
            return ;
        },
    };
    let len: usize = match app.rebase_changes.get(&file) {
        Some(changes) => changes.len(),
        None => {
            return ;
        },
    };
    if i < len {
        let ghost before = app.rebase_changes@;
        if let Some(mut changes) = app.rebase_changes.insert(file.clone(), Vec::new()) {
            let ghost list = changes@;
            let mut change: Change = changes.remove(i);
            change.state = state;
            changes.insert(i, change);
            assert(changes@ =~= list.update(i as int, Change { state, ..list[i as int] }));
            app.rebase_changes.insert(file, changes);
            proof {
                assert(app.rebase_changes@ =~= before.insert(file@, changes));
                assert(change_lists(app.rebase_changes@) =~= change_lists(before).insert(
                    file@,
                    changes@,
                ));
            }
        }
        if i < len - 1 {
            app.current_change_idx = i + 1;
        }
    }
}

// ---- from file to file ----

/// Where a number of steps leads in a ring of `len` places.
pub open spec fn ring_place(from: int, len: int, forward: bool, steps: int) -> int {
    if forward {
        (from + steps) % len
    } else {
        (from + len - steps) % len
    }
}

/// The file at an index has changes to decide about.
pub open spec fn has_changes(a: AppView, i: int) -> bool {
    a.rebase_changes.contains_key(a.file_names[i]) && a.rebase_changes[a.file_names[i]].len() > 0
}

/// How many steps, `steps` or more, lead to a file with changes; fewer than
/// there are files.
pub open spec fn steps_to_changes(a: AppView, forward: bool, steps: int) -> Option<int>
    decreases a.file_names.len() - steps,
{
    let len = a.file_names.len() as int;
    if steps >= len {
        None
    } else if has_changes(a, ring_place(a.current_file_idx as int, len, forward, steps)) {
        Some(steps)
    } else {
        steps_to_changes(a, forward, steps + 1)
    }
}

/// The user goes to the nearest other file with changes, in one direction and
/// around the end of the list, and stays where there is none.
pub open spec fn navigated(a: AppView, forward: bool) -> AppView {
    match steps_to_changes(a, forward, 1) {
        Some(steps) => AppView {
            current_file_idx: ring_place(
                a.current_file_idx as int,
                a.file_names.len() as int,
                forward,
                steps,
            ) as usize,
            current_change_idx: 0,
            ..a
        },
        None => a,
    }
}

pub proof fn lemma_ring(from: int, len: int, steps: int)
    requires
        0 <= from,
        0 < steps < len,
    ensures
        0 <= from % len < len,
        ring_place(from, len, true, steps) == if from % len + steps < len {
            from % len + steps
        } else {
            from % len + steps - len
        },
        ring_place(from, len, false, steps) == if from % len >= steps {
            from % len - steps
        } else {
            from % len + len - steps
        },
{
    let base = from % len;
    lemma_add_mod_noop(from, steps, len);
    lemma_small_mod(steps as nat, len as nat);
    assert((from + steps) % len == (base + steps) % len);
    let back = len - steps;
    lemma_add_mod_noop(from, back, len);
    lemma_small_mod(back as nat, len as nat);
    assert((from + len - steps) % len == (base + back) % len);
    if base + steps < len {
        lemma_small_mod((base + steps) as nat, len as nat);
    } else {
        lemma_mod_add_multiples_vanish(base + steps - len, len);
        lemma_small_mod((base + steps - len) as nat, len as nat);
    }
    if base + back < len {
        lemma_small_mod((base + back) as nat, len as nat);
    } else {
        lemma_mod_add_multiples_vanish(base + back - len, len);
        lemma_small_mod((base + back - len) as nat, len as nat);
    }
}

/// Goes to the next or the previous file with changes to decide about.
pub fn navigate_rebase_file(app: &mut App, forward: bool)
    ensures
        final(app)@ == navigated(old(app)@, forward),
{
    let len: usize = app.file_names.len();
    if len == 0 {
        return ;
    }
    let base: usize = app.current_file_idx % len;
    let mut offset: usize = 1;
    while offset < len
        invariant
            1 <= offset <= len,
            len == app.file_names@.len(),
            base == app.current_file_idx % len,
            app@ == old(app)@,
            navigated(app@, forward) == (match steps_to_changes(app@, forward, offset as int) {
                Some(steps) => AppView {
                    current_file_idx: ring_place(
                        app.current_file_idx as int,
                        len as int,
                        forward,
                        steps,
                    ) as usize,
                    current_change_idx: 0,
                    ..app@
                },
                None => app@,
            }),
        decreases len - offset,
    {
        proof {
            lemma_ring(app.current_file_idx as int, len as int, offset as int);
        }
        let idx: usize = if forward {
            if base < len - offset {
                base + offset
            } else {
                base - (len - offset)
            }
        } else {
            if base >= offset {
                base - offset
            } else {
                base + (len - offset)
            }
        };
        let found: bool = match app.rebase_changes.get(&app.file_names[idx]) {
            Some(changes) => changes.len() > 0,
            None => false,
        };
        assert(found == has_changes(app@, idx as int));
        if found {
            app.current_file_idx = idx;
            app.current_change_idx = 0;
            return ;
        }
        offset = offset + 1;
    }
}

// ---- lines ----

/// How long the diff of the file that the user is at is on the screen, where
/// it is so long side by side and so long unified.
pub open spec fn line_total(a: AppView, aligned: usize, unified: usize) -> usize {
    match current_file(a) {
        Some(file) => if a.file_changes.contains_key(file) {
            match a.view_mode {
                ViewMode::SideBySide => aligned,
                ViewMode::Unified => unified,
            }
        } else {
            0
        },
        None => 0,
    }
}

/// Get total line count for the current file's diff content, where it has
/// `aligned` lines side by side and `unified` lines unified.
pub fn diff_line_count(app: &App, aligned: usize, unified: usize) -> (r: usize)
    ensures
        r == line_total(app@, aligned, unified),
{
    match app.current_file() {
        Some(file) => if app.file_changes.contains_key(file) {
            match app.view_mode {
                ViewMode::SideBySide => aligned,
                ViewMode::Unified => unified,
            }
        } else {
            0
        },
        None => 0,
    }
}

/// How far a file is scrolled: not at all, unless a position is kept for it.
pub open spec fn scroll_of(a: AppView, file: Seq<char>) -> usize {
    if a.scroll_positions.contains_key(file) {
        a.scroll_positions[file]
    } else {
        0
    }
}

/// The file that the user is at is scrolled to a position.
pub open spec fn scrolled_to(a: AppView, position: usize) -> AppView {
    match current_file(a) {
        Some(file) => AppView {
            scroll_positions: a.scroll_positions.insert(file, position),
            ..a
        },
        None => a,
    }
}

/// The file that the user is at is scrolled no further than it takes for the
/// line of the cursor to be among the `height` lines on the screen.
pub open spec fn cursor_shown(a: AppView, height: usize) -> AppView {
    match current_file(a) {
        Some(file) => if a.cursor_line < scroll_of(a, file) {
            scrolled_to(a, a.cursor_line)
        } else if a.cursor_line >= scroll_of(a, file) + height {
            scrolled_to(a, (a.cursor_line - height + 1) as usize)
        } else {
            a
        },
        None => a,
    }
}

/// How far a file is scrolled.
pub fn scroll_position(app: &App, file: &str) -> (r: usize)
    ensures
        r == scroll_of(app@, file@),
{
    match app.scroll_positions.get(file) {
        Some(position) => *position,
        None => 0,
    }
}

/// Scrolls the file that the user is at to a position.
pub fn scroll_to(app: &mut App, position: usize)
    ensures
        final(app)@ == scrolled_to(old(app)@, position),
{
    let file: String = match app.current_file() {
        Some(file) => file.clone(),
        None => {
            return ;
        },
    };
    app.scroll_positions.insert(file, position);
}

/// Adjust scroll so the cursor line stays visible within the viewport.
pub fn scroll_to_cursor(app: &mut App, visible_height: usize)
    requires
        current_file(old(app)@) is Some ==> old(app).cursor_line < usize::MAX || visible_height > 0,
    ensures
        final(app)@ == cursor_shown(old(app)@, visible_height),
{
    let scroll: usize = match app.current_file() {
        Some(file) => scroll_position(app, file),
        None => {
            return ;
        },
    };
    let cursor: usize = app.cursor_line;
    if cursor < scroll {
        scroll_to(app, cursor);
    } else if cursor - scroll >= visible_height {
        scroll_to(app, cursor - visible_height + 1);
    }
}

/// A line of a diff without the character that says what became of it.
pub open spec fn unmarked(content: Seq<char>) -> Seq<char> {
    if content.len() > 0 && (content[0] == '+' || content[0] == '-' || content[0] == ' ') {
        content.skip(1)
    } else {
        content
    }
}

/// A line of a diff without the character that says what became of it.
pub fn without_mark(content: &str) -> (r: String)
    ensures
        r@ == unmarked(content@),
{
    let chars: Vec<char> = to_chars(content);
    let len: usize = chars.len();
    let marked: bool = len > 0 && (chars[0] == '+' || chars[0] == '-' || chars[0] == ' ');
    let from: usize = if marked {
        1
    } else {
        0
    };
    assert(chars@.subrange(from as int, len as int) =~= unmarked(content@));
    from_chars(&chars, from, len)
}

/// The first line from an index on that has a number, without its mark. A gap
/// has the number zero.
pub open spec fn line_from(lines: Seq<(usize, Seq<char>)>, from: int) -> Option<(usize, Seq<char>)>
    decreases lines.len() - from,
{
    if from < 0 || from >= lines.len() {
        None
    } else if lines[from].0 > 0 {
        Some((lines[from].0, unmarked(lines[from].1)))
    } else {
        line_from(lines, from + 1)
    }
}

/// The file and the line at the cursor, where the file has these lines on the
/// new side of a side by side view and these in a unified one.
pub open spec fn line_at_cursor(
    a: AppView,
    aligned_head: Seq<(usize, Seq<char>)>,
    unified: Seq<(usize, Seq<char>)>,
) -> Option<(Seq<char>, usize, Seq<char>)> {
    match current_file(a) {
        Some(file) => if a.file_changes.contains_key(file) {
            let lines = match a.view_mode {
                ViewMode::SideBySide => aligned_head,
                ViewMode::Unified => unified,
            };
            match line_from(lines, a.cursor_line as int) {
                Some((line_num, content)) => Some((file, line_num, content)),
                None => None,
            }
        } else {
            None
        },
        None => None,
    }
}

/// Get the line at the cursor position for commenting: the first line at or
/// after it that is no gap. Returns (filename, line_number,
/// cleaned_line_content).
pub fn get_line_at_cursor(
    app: &App,
    aligned_head: &Vec<LineChange>,
    unified: &Vec<LineChange>,
) -> (r: Option<(String, usize, String)>)
    ensures
        line_at_cursor(app@, numbered(aligned_head@), numbered(unified@)) == (match r {
            Some((file, line_num, content)) => Some((file@, line_num, content@)),
            None => None,
        }),
{
    let file: String = match app.current_file() {
        Some(file) => file.clone(),
        None => {
            return None;
        },
    };
    if !app.file_changes.contains_key(&file) {
        return None;
    }
    let lines: &Vec<LineChange> = match app.view_mode {
        ViewMode::SideBySide => aligned_head,
        ViewMode::Unified => unified,
    };
    let ghost all = numbered(lines@);
    let mut i: usize = app.cursor_line;
    while i < lines.len()
        invariant
            all == numbered(lines@),
            line_from(all, app.cursor_line as int) == line_from(all, i as int),
            line_at_cursor(app@, numbered(aligned_head@), numbered(unified@)) == (match line_from(
                all,
                app.cursor_line as int,
            ) {
                Some((line_num, content)) => Some((file@, line_num, content)),
                None => None,
            }),
        decreases lines@.len() - i,
    {
        let line_num: usize = lines[i].0;
        assert(all[i as int] == (line_num, lines@[i as int].1@));
        if line_num > 0 {
            return Some((file, line_num, without_mark(&lines[i].1)));
        }
        i = i + 1;
    }
    None
}

} // verus!
