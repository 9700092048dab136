//! What a key does.

use vstd::arithmetic::div_mod::{lemma_add_mod_noop, lemma_small_mod};
use vstd::prelude::*;

use crate::comment::{
    can_edit, comment_accepts, comment_message, edit_comment, edited, finished_comment,
    is_worth_sending,
};
use crate::input::{page_height, page_of, Action, Key, Layout, LayoutView, Task};
use crate::moves::{
    cursor_shown, decided, diff_line_count, get_line_at_cursor, line_at_cursor, line_total,
    navigate_rebase_file, navigated, scroll_to, scroll_to_cursor, scrolled_to, set_change_state,
};
use crate::state::{
    current_changes, current_file, App, AppMode, AppView, ChangeState, Comment, CommentInput, Pane,
    ViewMode,
};

verus! {

// ---- the meaning of keys ----

/// What a key means where nothing is being written and nothing stands in
/// front of the diff.
#[derive(Clone, Copy, Debug, PartialEq, Eq, Structural)]
pub enum Meaning {
    Leave,
    Choose,
    Accept,
    Reject,
    Act,
    Down,
    Up,
    PageDown,
    PageUp,
    Home,
    End,
    SwitchPane,
    ToList,
    ToContent,
    NextTheme,
    SwitchView,
    NextFile,
    PreviousFile,
    Help,
    Nothing,
}

/// What a key means.
pub open spec fn meaning_of(key: Key) -> Meaning {
    match key {
        Key::Esc => Meaning::Leave,
        Key::Down => Meaning::Down,
        Key::Up => Meaning::Up,
        Key::PageDown => Meaning::PageDown,
        Key::PageUp => Meaning::PageUp,
        Key::Home => Meaning::Home,
        Key::End => Meaning::End,
        Key::Tab => Meaning::SwitchPane,
        Key::Left => Meaning::ToList,
        Key::Right => Meaning::ToContent,
        Key::Char(c) => if c == 'q' {
            Meaning::Leave
        } else if c == 'r' {
            Meaning::Choose
        } else if c == 'a' {
            Meaning::Accept
        } else if c == 'x' {
            Meaning::Reject
        } else if c == 'c' {
            Meaning::Act
        } else if c == 'j' {
            Meaning::Down
        } else if c == 'k' {
            Meaning::Up
        } else if c == 'h' {
            Meaning::ToList
        } else if c == 'l' {
            Meaning::ToContent
        } else if c == 't' {
            Meaning::NextTheme
        } else if c == 'u' {
            Meaning::SwitchView
        } else if c == 'n' {
            Meaning::NextFile
        } else if c == 'p' {
            Meaning::PreviousFile
        } else if c == '?' {
            Meaning::Help
        } else {
            Meaning::Nothing
        },
        _ => Meaning::Nothing,
    }
}

/// What a key means.
pub fn meaning(key: Key) -> (r: Meaning)
    ensures
        r == meaning_of(key),
{
    match key {
        Key::Char('q') | Key::Esc => Meaning::Leave,
        Key::Char('r') => Meaning::Choose,
        Key::Char('a') => Meaning::Accept,
        Key::Char('x') => Meaning::Reject,
        Key::Char('c') => Meaning::Act,
        Key::Char('j') | Key::Down => Meaning::Down,
        Key::Char('k') | Key::Up => Meaning::Up,
        Key::PageDown => Meaning::PageDown,
        Key::PageUp => Meaning::PageUp,
        Key::Home => Meaning::Home,
        Key::End => Meaning::End,
        Key::Tab => Meaning::SwitchPane,
        Key::Char('h') | Key::Left => Meaning::ToList,
        Key::Char('l') | Key::Right => Meaning::ToContent,
        Key::Char('t') => Meaning::NextTheme,
        Key::Char('u') => Meaning::SwitchView,
        Key::Char('n') => Meaning::NextFile,
        Key::Char('p') => Meaning::PreviousFile,
        Key::Char('?') => Meaning::Help,
        _ => Meaning::Nothing,
    }
}

// ---- moving in lists ----

/// `steps` places further back, at the start of the list at the latest.
pub open spec fn back(from: usize, steps: usize) -> usize {
    if from >= steps {
        (from - steps) as usize
    } else {
        0
    }
}

/// `steps` places further on, at the end of a list of `len` at the latest.
pub open spec fn ahead(from: usize, steps: usize, len: nat) -> usize {
    if from + steps < len {
        (from + steps) as usize
    } else {
        last_place(len)
    }
}

/// The last place of a list, which is the first one if it is empty.
pub open spec fn last_place(len: nat) -> usize {
    if len > 0 {
        (len - 1) as usize
    } else {
        0
    }
}

/// `steps` places further on, at the end of a list of `len` at the latest.
pub fn step_ahead(from: usize, steps: usize, len: usize) -> (r: usize)
    ensures
        r == ahead(from, steps, len as nat),
{
    let last: usize = len.saturating_sub(1);
    let to: usize = from.saturating_add(steps);
    if to < last {
        to
    } else {
        last
    }
}

// ---- reading a diff ----

/// What a key does while a diff is read and the list of files has the focus.
pub open spec fn in_list(a: AppView, m: Meaning, page: usize) -> AppView {
    let len = a.file_names.len();
    match m {
        Meaning::Down => if a.current_file_idx + 1 < len {
            AppView { current_file_idx: (a.current_file_idx + 1) as usize, cursor_line: 0, ..a }
        } else {
            a
        },
        Meaning::Up => if a.current_file_idx > 0 {
            AppView { current_file_idx: (a.current_file_idx - 1) as usize, cursor_line: 0, ..a }
        } else {
            a
        },
        Meaning::PageDown => AppView {
            current_file_idx: ahead(a.current_file_idx, page, len),
            ..a
        },
        Meaning::PageUp => AppView { current_file_idx: back(a.current_file_idx, page), ..a },
        Meaning::Home => AppView { current_file_idx: 0, ..a },
        Meaning::End => AppView { current_file_idx: last_place(len), ..a },
        _ => a,
    }
}

/// What a key does while a diff is read and its content has the focus: the
/// content has `total` lines, of which `page` are on the screen.
pub open spec fn in_content(a: AppView, m: Meaning, page: usize, total: usize) -> AppView {
    match m {
        Meaning::Down => if a.cursor_line + 1 < total {
            cursor_shown(AppView { cursor_line: (a.cursor_line + 1) as usize, ..a }, page)
        } else {
            a
        },
        Meaning::Up => if a.cursor_line > 0 {
            cursor_shown(AppView { cursor_line: (a.cursor_line - 1) as usize, ..a }, page)
        } else {
            a
        },
        Meaning::PageDown => cursor_shown(
            AppView { cursor_line: ahead(a.cursor_line, page, total as nat), ..a },
            page,
        ),
        Meaning::PageUp => cursor_shown(
            AppView { cursor_line: back(a.cursor_line, page), ..a },
            page,
        ),
        Meaning::Home => scrolled_to(AppView { cursor_line: 0, ..a }, 0),
        Meaning::End => scrolled_to(
            AppView { cursor_line: last_place(total as nat), ..a },
            usize::MAX,
        ),
        _ => a,
    }
}

/// The line at the cursor is commented on, if there is one.
pub open spec fn commenting(a: AppView, l: LayoutView) -> AppView {
    match line_at_cursor(a, l.aligned_head, l.unified_lines) {
        Some((file, line_num, line_content)) => AppView {
            comment_input: Some(
                Comment {
                    file,
                    line_num,
                    line_content,
                    text: Seq::empty(),
                    cursor_pos: 0,
                },
            ),
            ..a
        },
        None => a,
    }
}

/// The next set of colours.
pub open spec fn next_theme(a: AppView) -> AppView {
    if a.theme_cycle.len() > 0 {
        let i = (a.theme_cycle_idx + 1) % a.theme_cycle.len() as int;
        AppView { theme_cycle_idx: i as usize, theme: a.theme_cycle[i], ..a }
    } else {
        a
    }
}

/// What a key does while a diff is read.
pub open spec fn reading_step(a: AppView, m: Meaning, l: LayoutView) -> (AppView, Task) {
    match m {
        Meaning::Leave => (a, Task::Quit(false)),
        Meaning::Choose => (AppView { app_mode: AppMode::Rebase, ..a }, Task::PrepareRebase),
        Meaning::Act => (commenting(a, l), Task::Continue),
        Meaning::SwitchPane => (
            AppView {
                focused_pane: match a.focused_pane {
                    Pane::FileList => Pane::DiffContent,
                    Pane::DiffContent => Pane::FileList,
                },
                ..a
            },
            Task::Continue,
        ),
        Meaning::ToList => (AppView { focused_pane: Pane::FileList, ..a }, Task::Continue),
        Meaning::ToContent => (AppView { focused_pane: Pane::DiffContent, ..a }, Task::Continue),
        Meaning::NextTheme => (next_theme(a), Task::Continue),
        Meaning::SwitchView => (
            AppView {
                view_mode: match a.view_mode {
                    ViewMode::SideBySide => ViewMode::Unified,
                    ViewMode::Unified => ViewMode::SideBySide,
                },
                ..a
            },
            Task::Continue,
        ),
        Meaning::Help => (AppView { show_help_modal: true, ..a }, Task::Continue),
        _ => (
            match a.focused_pane {
                Pane::FileList => in_list(a, m, page_of(l.height)),
                Pane::DiffContent => in_content(
                    a,
                    m,
                    page_of(l.height),
                    line_total(a, l.aligned_count, l.unified_count),
                ),
            },
            Task::Continue,
        ),
    }
}

// ---- choosing changes ----

/// What a key does to the place in the list of changes.
pub open spec fn in_changes(a: AppView, m: Meaning, page: usize) -> AppView {
    let len = match current_changes(a) {
        Some(changes) => changes.len(),
        None => 0,
    };
    match m {
        Meaning::Down => if a.current_change_idx + 1 < len {
            AppView { current_change_idx: (a.current_change_idx + 1) as usize, ..a }
        } else {
            a
        },
        Meaning::Up => AppView { current_change_idx: back(a.current_change_idx, 1), ..a },
        Meaning::PageDown => if len > 0 {
            AppView { current_change_idx: ahead(a.current_change_idx, page, len), ..a }
        } else {
            a
        },
        Meaning::PageUp => AppView { current_change_idx: back(a.current_change_idx, page), ..a },
        Meaning::Home => AppView { current_change_idx: 0, ..a },
        Meaning::End => if len > 0 {
            AppView { current_change_idx: last_place(len), ..a }
        } else {
            a
        },
        _ => a,
    }
}

/// What a key does while changes are chosen.
pub open spec fn choosing_step(a: AppView, m: Meaning, l: LayoutView) -> (AppView, Task) {
    match m {
        Meaning::Leave => (AppView { app_mode: AppMode::Diff, ..a }, Task::Continue),
        Meaning::Accept => (decided(a, ChangeState::Accepted), Task::Continue),
        Meaning::Reject => (decided(a, ChangeState::Rejected), Task::Continue),
        Meaning::Act => (a, Task::CommitChanges),
        Meaning::NextTheme => (next_theme(a), Task::Continue),
        Meaning::NextFile => (navigated(a, true), Task::Continue),
        Meaning::PreviousFile => (navigated(a, false), Task::Continue),
        Meaning::Help => (AppView { show_help_modal: true, ..a }, Task::Continue),
        _ => (in_changes(a, m, page_of(l.height)), Task::Continue),
    }
}

// ---- in front of the diff ----

/// What a key does while the help is shown.
pub open spec fn help_step(a: AppView, key: Key) -> (AppView, Task) {
    if key == Key::Esc || key == Key::Char('?') || key == Key::Char('q') {
        (AppView { show_help_modal: false, ..a }, Task::Continue)
    } else {
        (a, Task::Continue)
    }
}

/// What a key does while a rebase is proposed.
pub open spec fn proposal_step(a: AppView, key: Key) -> (AppView, Task) {
    if key == Key::Char('r') {
        (a, Task::RunRebase)
    } else if key == Key::Char('i') || key == Key::Esc {
        (AppView { show_rebase_modal: false, ..a }, Task::Continue)
    } else {
        (a, Task::Continue)
    }
}

/// What a key does while a comment is written.
pub open spec fn comment_step(a: AppView, c: Comment, key: Key) -> (AppView, Task) {
    match key {
        Key::Esc => (AppView { comment_input: None, ..a }, Task::Continue),
        Key::Enter => (
            AppView { comment_input: None, ..a },
            if is_worth_sending(c) {
                Task::SendComment(comment_message(c))
            } else {
                Task::Continue
            },
        ),
        _ => (AppView { comment_input: Some(edited(c, key)), ..a }, Task::Continue),
    }
}

/// What a key does. It clears the message, whatever else it does.
pub open spec fn key_step(a: AppView, key: Key, l: LayoutView) -> (AppView, Task) {
    let a = AppView { status_message: None, ..a };
    if a.show_help_modal {
        help_step(a, key)
    } else if a.show_rebase_modal {
        proposal_step(a, key)
    } else {
        match a.comment_input {
            Some(c) => comment_step(a, c, key),
            None => match a.app_mode {
                AppMode::Diff => reading_step(a, meaning_of(key), l),
                AppMode::Rebase => choosing_step(a, meaning_of(key), l),
            },
        }
    }
}

/// There is a line number behind that of the cursor, where a key in the content
/// of a diff asks for it: on the way down, and for a page up where the screen
/// has room for no line, so that the one behind the cursor is scrolled to.
pub open spec fn has_room(a: AppView, m: Meaning, l: LayoutView) -> bool {
    a.cursor_line < usize::MAX || match m {
        Meaning::Down => line_total(a, l.aligned_count, l.unified_count) == 0,
        Meaning::PageUp => page_of(l.height) > 0 || current_file(a) is None,
        _ => true,
    }
}

/// The state in which a key can be taken: in a comment, the cursor stands
/// where the key can do its work; in the content of a diff, there is a number
/// for the line that the key counts to.
pub open spec fn takes_key(a: AppView, key: Key, l: LayoutView) -> bool {
    if a.show_help_modal || a.show_rebase_modal {
        true
    } else {
        match a.comment_input {
            Some(c) => can_edit(c, key),
            None => a.app_mode == AppMode::Diff && a.focused_pane == Pane::DiffContent
                ==> has_room(a, meaning_of(key), l),
        }
    }
}

/// Whether a key can be taken.
pub fn accepts_key(app: &App, key: Key, layout: &Layout) -> (r: bool)
    ensures
        r == takes_key(app@, key, layout@),
{
    if app.show_help_modal || app.show_rebase_modal {
        return true;
    }
    match &app.comment_input {
        Some(c) => comment_accepts(c, key),
        None => {
            if app.app_mode != AppMode::Diff || app.focused_pane != Pane::DiffContent {
                return true;
            }
            if app.cursor_line < usize::MAX {
                return true;
            }
            match meaning(key) {
                Meaning::Down => diff_line_count(app, layout.aligned_count, layout.unified_count)
                    == 0,
                Meaning::PageUp => page_height(layout.height) > 0 || app.current_file().is_none(),
                _ => true,
            }
        },
    }
}

/// What a key does depends on how the diff lies on the screen.
pub open spec fn reads_layout(a: AppView, key: Key) -> bool {
    let m = meaning_of(key);
    &&& !a.show_help_modal && !a.show_rebase_modal && a.comment_input is None
    &&& match a.app_mode {
        AppMode::Diff => m == Meaning::Act || m == Meaning::PageDown || m == Meaning::PageUp
            || a.focused_pane == Pane::DiffContent && (m == Meaning::Down || m == Meaning::Up || m
            == Meaning::End),
        AppMode::Rebase => m == Meaning::PageDown || m == Meaning::PageUp,
    }
}

/// Whether what a key does depends on how the diff lies on the screen.
pub fn needs_layout(app: &App, key: Key) -> (r: bool)
    ensures
        r == reads_layout(app@, key),
{
    if app.show_help_modal || app.show_rebase_modal || app.comment_input.is_some() {
        return false;
    }
    let m: Meaning = meaning(key);
    match app.app_mode {
        AppMode::Diff => m == Meaning::Act || m == Meaning::PageDown || m == Meaning::PageUp
            || app.focused_pane == Pane::DiffContent && (m == Meaning::Down || m == Meaning::Up
            || m == Meaning::End),
        AppMode::Rebase => m == Meaning::PageDown || m == Meaning::PageUp,
    }
}

// ---- the handlers ----

fn take_comment_key(app: &mut App, comment: CommentInput, key: Key) -> (r: Action)
    requires
        can_edit(comment@, key),
    ensures
        (final(app)@, r@) == comment_step(old(app)@, comment@, key),
{
    match key {
        Key::Esc => {
            app.comment_input = None;
            Action::Continue
        },
        Key::Enter => {
            app.comment_input = None;
            match finished_comment(&comment) {
                Some(message) => Action::SendComment(message),
                None => Action::Continue,
            }
        },
        _ => {
            let mut comment = comment;
            edit_comment(&mut comment, key);
            app.comment_input = Some(comment);
            Action::Continue
        },
    }
}

fn move_in_list(app: &mut App, m: Meaning, page: usize)
    ensures
        final(app)@ == in_list(old(app)@, m, page),
{
    let len: usize = app.file_names.len();
    match m {
        Meaning::Down => {
            if len > 0 && app.current_file_idx < len - 1 {
                app.current_file_idx = app.current_file_idx + 1;
                app.cursor_line = 0;
            }
        },
        Meaning::Up => {
            if app.current_file_idx > 0 {
                app.current_file_idx = app.current_file_idx - 1;
                app.cursor_line = 0;
            }
        },
        Meaning::PageDown => {
            app.current_file_idx = step_ahead(app.current_file_idx, page, len);
        },
        Meaning::PageUp => {
            app.current_file_idx = app.current_file_idx.saturating_sub(page);
        },
        Meaning::Home => {
            app.current_file_idx = 0;
        },
        Meaning::End => {
            app.current_file_idx = len.saturating_sub(1);
        },
        _ => {},
    }
}

fn move_in_content(app: &mut App, m: Meaning, page: usize, total: usize)
    requires
        m == Meaning::PageUp && current_file(old(app)@) is Some ==> old(app).cursor_line
            < usize::MAX || page > 0,
    ensures
        final(app)@ == in_content(old(app)@, m, page, total),
{
    match m {
        Meaning::Down => {
            if total > 0 && app.cursor_line < total - 1 {
                app.cursor_line = app.cursor_line + 1;
                scroll_to_cursor(app, page);
            }
        },
        Meaning::Up => {
            if app.cursor_line > 0 {
                app.cursor_line = app.cursor_line - 1;
                scroll_to_cursor(app, page);
            }
        },
        Meaning::PageDown => {
            app.cursor_line = step_ahead(app.cursor_line, page, total);
            scroll_to_cursor(app, page);
        },
        Meaning::PageUp => {
            app.cursor_line = app.cursor_line.saturating_sub(page);
            scroll_to_cursor(app, page);
        },
        Meaning::Home => {
            app.cursor_line = 0;
            scroll_to(app, 0);
        },
        Meaning::End => {
            app.cursor_line = total.saturating_sub(1);
            scroll_to(app, usize::MAX);
        },
        _ => {},
    }
}

fn move_in_changes(app: &mut App, m: Meaning, page: usize)
    ensures
        final(app)@ == in_changes(old(app)@, m, page),
{
    let len: usize = match app.current_changes() {
        Some(changes) => changes.len(),
        None => 0,
    };
    match m {
        Meaning::Down => {
            if len > 0 && app.current_change_idx < len - 1 {
                app.current_change_idx = app.current_change_idx + 1;
            }
        },
        Meaning::Up => {
            app.current_change_idx = app.current_change_idx.saturating_sub(1);
        },
        Meaning::PageDown => {
            if len > 0 {
                app.current_change_idx = step_ahead(app.current_change_idx, page, len);
            }
        },
        Meaning::PageUp => {
            app.current_change_idx = app.current_change_idx.saturating_sub(page);
        },
        Meaning::Home => {
            app.current_change_idx = 0;
        },
        Meaning::End => {
            if len > 0 {
                app.current_change_idx = len - 1;
            }
        },
        _ => {},
    }
}

/// Goes on to the next set of colours.
fn cycle_theme(app: &mut App)
    ensures
        final(app)@ == next_theme(old(app)@),
{
    let len: usize = app.theme_cycle.len();
    if len > 0 {
        proof {
            let i = app.theme_cycle_idx as int;
            lemma_add_mod_noop(i, 1, len as int);
            lemma_add_mod_noop(i % len as int, 1, len as int);
            lemma_small_mod((i % len as int) as nat, len as nat);
        }
        app.theme_cycle_idx = (app.theme_cycle_idx % len + 1) % len;
        app.theme = app.theme_cycle[app.theme_cycle_idx].clone();
    }
}

fn start_comment(app: &mut App, layout: &Layout)
    ensures
        final(app)@ == commenting(old(app)@, layout@),
{
    if let Some((file, line_num, line_content)) = get_line_at_cursor(
        app,
        &layout.aligned_head,
        &layout.unified_lines,
    ) {
        let text: String = String::new();
        assert(text@ =~= Seq::<char>::empty());
        app.comment_input =
        Some(CommentInput { file, line_num, line_content, text, cursor_pos: 0 });
    }
}

fn take_reading_key(app: &mut App, m: Meaning, layout: &Layout) -> (r: Action)
    requires
        old(app)@.focused_pane == Pane::DiffContent ==> has_room(old(app)@, m, layout@),
    ensures
        (final(app)@, r@) == reading_step(old(app)@, m, layout@),
{
    match m {
        Meaning::Leave => {
            return Action::Quit(false);
        },
        Meaning::Choose => {
            app.app_mode = AppMode::Rebase;
            return Action::PrepareRebase;
        },
        Meaning::Act => {
            start_comment(app, layout);
        },
        Meaning::SwitchPane => {
            app.focused_pane =
            match app.focused_pane {
                Pane::FileList => Pane::DiffContent,
                Pane::DiffContent => Pane::FileList,
            };
        },
        Meaning::ToList => {
            app.focused_pane = Pane::FileList;
        },
        Meaning::ToContent => {
            app.focused_pane = Pane::DiffContent;
        },
        Meaning::NextTheme => {
            cycle_theme(app);
        },
        Meaning::SwitchView => {
            app.view_mode =
            match app.view_mode {
                ViewMode::SideBySide => ViewMode::Unified,
                ViewMode::Unified => ViewMode::SideBySide,
            };
        },
        Meaning::Help => {
            app.show_help_modal = true;
        },
        _ => {
            let page: usize = page_height(layout.height);
            match app.focused_pane {
                Pane::FileList => {
                    move_in_list(app, m, page);
                },
                Pane::DiffContent => {
                    let total: usize = diff_line_count(
                        app,
                        layout.aligned_count,
                        layout.unified_count,
                    );
                    move_in_content(app, m, page, total);
                },
            }
        },
    }
    Action::Continue
}

fn take_choosing_key(app: &mut App, m: Meaning, layout: &Layout) -> (r: Action)
    ensures
        (final(app)@, r@) == choosing_step(old(app)@, m, layout@),
{
    match m {
        Meaning::Leave => {
            // Return to diff mode without applying changes
            app.app_mode = AppMode::Diff;
        },
        Meaning::Accept => {
            set_change_state(app, ChangeState::Accepted);
        },
        Meaning::Reject => {
            set_change_state(app, ChangeState::Rejected);
        },
        Meaning::Act => {
            return Action::CommitChanges;
        },
        Meaning::NextTheme => {
            cycle_theme(app);
        },
        Meaning::NextFile => {
            navigate_rebase_file(app, true);
        },
        Meaning::PreviousFile => {
            navigate_rebase_file(app, false);
        },
        Meaning::Help => {
            app.show_help_modal = true;
        },
        _ => {
            move_in_changes(app, m, page_height(layout.height));
        },
    }
    Action::Continue
}

/// Takes in a key that was pressed.
pub fn handle_key(app: &mut App, key: Key, layout: &Layout) -> (r: Action)
    requires
        takes_key(old(app)@, key, layout@),
    ensures
        (final(app)@, r@) == key_step(old(app)@, key, layout@),
{
    // Clear transient status message on any keypress
    app.status_message = None;

    if app.show_help_modal {
        if key == Key::Esc || key == Key::Char('?') || key == Key::Char('q') {
            app.show_help_modal = false;
        }
        return Action::Continue;
    }
    if app.show_rebase_modal {
        if key == Key::Char('r') {
            return Action::RunRebase;
        }
        if key == Key::Char('i') || key == Key::Esc {
            app.show_rebase_modal = false;
        }
        return Action::Continue;
    }
    if let Some(comment) = app.comment_input.take() {
        return take_comment_key(app, comment, key);
    }
    match app.app_mode {
        AppMode::Diff => take_reading_key(app, meaning(key), layout),
        AppMode::Rebase => take_choosing_key(app, meaning(key), layout),
    }
}

} // verus!
