//! Where the user is, and what a move, a decision and a refresh do to that.

use vstd::prelude::*;

use crate::error::Failure;
use crate::filter::passes;
use crate::moves::{
    cursor_shown, decided, line_at_cursor, line_from, line_total, navigated, scroll_of, scrolled_to,
    steps_to_changes, unmarked,
};
use crate::names::{is_listing, listing, listing_exists};
use crate::parse::all_sides;
use crate::refresh::{refreshed, shown_files};
use crate::sources::Loaded;
use crate::state::{
    current_changes, current_file, App, AppMode, AppView, Change, ChangeState, ViewMode,
};
use crate::text::precedes;
use crate::ui_laws::navigation_finds_the_nearest;

verus! {

// ---- the state ----

/// The user is at the file under the index of the state, and at its changes.
pub proof fn user_is_at_the_indexed_file(a: AppView)
    ensures
        a.current_file_idx < a.file_names.len() ==> current_file(a) == Some(
            a.file_names[a.current_file_idx as int],
        ),
        a.current_file_idx >= a.file_names.len() ==> current_file(a) is None && current_changes(a)
            is None,
        a.current_file_idx < a.file_names.len() && a.rebase_changes.contains_key(
            a.file_names[a.current_file_idx as int],
        ) ==> current_changes(a) == Some(
            a.rebase_changes[a.file_names[a.current_file_idx as int]],
        ),
        a.current_file_idx < a.file_names.len() && !a.rebase_changes.contains_key(
            a.file_names[a.current_file_idx as int],
        ) ==> current_changes(a) is None,
{
}

/// Nothing of the state is hidden.
pub proof fn state_shows_every_part(app: App)
    ensures
        app@.file_changes == all_sides(app.file_changes@),
        app@.left_label == app.left_label@,
        app@.right_label == app.right_label@,
        app@.diff_source == app.diff_source@,
        app@.current_file_idx == app.current_file_idx,
        app@.file_names.len() == app.file_names@.len(),
        forall|i: int|
            0 <= i < app.file_names@.len() ==> #[trigger] app@.file_names[i]
                == app.file_names@[i]@,
        app@.scroll_positions == app.scroll_positions@,
        app@.focused_pane == app.focused_pane,
        app@.view_mode == app.view_mode,
        app@.app_mode == app.app_mode,
        forall|file: Seq<char>| #[trigger]
            app@.rebase_changes.contains_key(file) <==> app.rebase_changes@.contains_key(file),
        forall|file: Seq<char>|
            app.rebase_changes@.contains_key(file) ==> #[trigger] app@.rebase_changes[file]
                == app.rebase_changes@[file]@,
        app@.current_change_idx == app.current_change_idx,
        app@.rebase_notification is Some <==> app.rebase_notification is Some,
        app.rebase_notification is Some ==> app@.rebase_notification->0
            == app.rebase_notification->0@,
        app@.show_rebase_modal == app.show_rebase_modal,
        app@.status_message is Some <==> app.status_message is Some,
        app.status_message is Some ==> app@.status_message->0 == app.status_message->0@,
        app@.show_help_modal == app.show_help_modal,
        app@.theme == app.theme.name@,
        app@.theme_cycle.len() == app.theme_cycle@.len(),
        forall|i: int|
            0 <= i < app.theme_cycle@.len() ==> #[trigger] app@.theme_cycle[i]
                == app.theme_cycle@[i].name@,
        app@.theme_cycle_idx == app.theme_cycle_idx,
        app@.file_filter == app.file_filter@,
        app@.comment_input is Some <==> app.comment_input is Some,
        app.comment_input is Some ==> {
            let c = app.comment_input->0;
            let d = app@.comment_input->0;
            &&& d.file == c.file@ && d.line_num == c.line_num && d.line_content == c.line_content@
            &&& d.text == c.text@ && d.cursor_pos == c.cursor_pos
        },
        app@.cursor_line == app.cursor_line,
{
}

// ---- the line under the cursor ----

/// The sign that says what became of a line comes off, and nothing else does.
pub proof fn only_the_mark_comes_off(t: Seq<char>)
    ensures
        unmarked(seq!['+'] + t) == t,
        unmarked(seq!['-'] + t) == t,
        unmarked(seq![' '] + t) == t,
        t.len() == 0 || t[0] != '+' && t[0] != '-' && t[0] != ' ' ==> unmarked(t) == t,
{
    assert((seq!['+'] + t).skip(1) =~= t);
    assert((seq!['-'] + t).skip(1) =~= t);
    assert((seq![' '] + t).skip(1) =~= t);
}

proof fn lemma_line_from(lines: Seq<(usize, Seq<char>)>, from: int, i: int)
    requires
        0 <= from <= i < lines.len(),
        lines[i].0 > 0,
        forall|j: int| from <= j < i ==> (#[trigger] lines[j]).0 == 0,
    ensures
        line_from(lines, from) == Some((lines[i].0, unmarked(lines[i].1))),
    decreases i - from,
{
    if from < i {
        assert(lines[from].0 == 0);
        lemma_line_from(lines, from + 1, i);
    }
}

proof fn lemma_no_line_from(lines: Seq<(usize, Seq<char>)>, from: int)
    requires
        0 <= from,
        forall|j: int| from <= j < lines.len() ==> (#[trigger] lines[j]).0 == 0,
    ensures
        line_from(lines, from) is None,
    decreases lines.len() - from,
{
    if from < lines.len() {
        assert(lines[from].0 == 0);
        lemma_no_line_from(lines, from + 1);
    }
}

/// The lines of the view that is shown: all of them in a unified view, those on
/// the new side of a side by side one.
pub open spec fn lines_shown(
    a: AppView,
    aligned_head: Seq<(usize, Seq<char>)>,
    unified: Seq<(usize, Seq<char>)>,
) -> Seq<(usize, Seq<char>)> {
    if a.view_mode == ViewMode::Unified {
        unified
    } else {
        aligned_head
    }
}

/// A comment is on the line under the cursor in the view that is shown; where
/// that is a gap, on the first line behind it that is none. It has the number
/// of that line and its text without the mark.
pub proof fn comment_is_on_the_line_under_the_cursor(
    a: AppView,
    aligned_head: Seq<(usize, Seq<char>)>,
    unified: Seq<(usize, Seq<char>)>,
    i: int,
    t: Seq<char>,
)
    requires
        a.current_file_idx < a.file_names.len(),
        a.file_changes.contains_key(a.file_names[a.current_file_idx as int]),
        ({
            let lines = lines_shown(a, aligned_head, unified);
            &&& a.cursor_line <= i < lines.len()
            &&& lines[i].0 > 0
            &&& forall|j: int| a.cursor_line <= j < i ==> (#[trigger] lines[j]).0 == 0
            &&& lines[i].1 == seq!['+'] + t || lines[i].1 == seq!['-'] + t || lines[i].1
                == seq![' '] + t || lines[i].1 == t && (t.len() == 0 || t[0] != '+' && t[0] != '-'
                && t[0] != ' ')
        }),
    ensures
        line_at_cursor(a, aligned_head, unified) == Some(
            (
                a.file_names[a.current_file_idx as int],
                lines_shown(a, aligned_head, unified)[i].0,
                t,
            ),
        ),
{
    let lines = lines_shown(a, aligned_head, unified);
    only_the_mark_comes_off(t);
    lemma_line_from(lines, a.cursor_line as int, i);
}

/// There is no line to comment on only if no line from the cursor on has a
/// number, or there is no file with a diff.
pub proof fn no_comment_without_a_line(
    a: AppView,
    aligned_head: Seq<(usize, Seq<char>)>,
    unified: Seq<(usize, Seq<char>)>,
)
    requires
        ({
            let lines = lines_shown(a, aligned_head, unified);
            ||| a.current_file_idx >= a.file_names.len()
            ||| !a.file_changes.contains_key(a.file_names[a.current_file_idx as int])
            ||| forall|j: int| a.cursor_line <= j < lines.len() ==> (#[trigger] lines[j]).0 == 0
        }),
    ensures
        line_at_cursor(a, aligned_head, unified) is None,
{
    let lines = lines_shown(a, aligned_head, unified);
    if forall|j: int| a.cursor_line <= j < lines.len() ==> (#[trigger] lines[j]).0 == 0 {
        lemma_no_line_from(lines, a.cursor_line as int);
    }
}

/// The content of a diff is as long as the view that is shown; without a diff
/// there is none.
pub proof fn content_is_as_long_as_the_view(a: AppView, aligned: usize, unified: usize)
    ensures
        a.current_file_idx < a.file_names.len() && a.file_changes.contains_key(
            a.file_names[a.current_file_idx as int],
        ) ==> line_total(a, aligned, unified) == if a.view_mode == ViewMode::Unified {
            unified
        } else {
            aligned
        },
        !(a.current_file_idx < a.file_names.len() && a.file_changes.contains_key(
            a.file_names[a.current_file_idx as int],
        )) ==> line_total(a, aligned, unified) == 0,
{
}

// ---- scrolling ----

/// Scrolling concerns the file that the user is at, and nothing else changes.
pub proof fn scrolling_concerns_one_file(a: AppView, position: usize, other: Seq<char>)
    ensures
        ({
            let b = scrolled_to(a, position);
            &&& b == AppView { scroll_positions: b.scroll_positions, ..a }
            &&& a.current_file_idx >= a.file_names.len() ==> b == a
            &&& a.current_file_idx < a.file_names.len() ==> {
                let file = a.file_names[a.current_file_idx as int];
                &&& scroll_of(b, file) == position
                &&& b.scroll_positions == a.scroll_positions.insert(file, position)
                &&& other != file ==> scroll_of(b, other) == scroll_of(a, other)
            }
        }),
        a.scroll_positions.contains_key(other) ==> scroll_of(a, other)
            == a.scroll_positions[other],
        !a.scroll_positions.contains_key(other) ==> scroll_of(a, other) == 0,
{
}

/// To show the cursor a file is scrolled no more than it takes: not at all if
/// the cursor is on the screen, so that its line is the first one if it was
/// above, and the last one if it was below.
pub proof fn cursor_is_shown_with_the_least_scrolling(a: AppView, height: usize)
    requires
        a.current_file_idx < a.file_names.len(),
        a.cursor_line < usize::MAX || height > 0,
    ensures
        ({
            let file = a.file_names[a.current_file_idx as int];
            let b = cursor_shown(a, height);
            let top = scroll_of(a, file);
            &&& b == AppView { scroll_positions: b.scroll_positions, ..a }
            &&& top <= a.cursor_line < top + height ==> b == a
            &&& a.cursor_line < top ==> scroll_of(b, file) == a.cursor_line
            &&& a.cursor_line >= top + height ==> scroll_of(b, file) + height == a.cursor_line + 1
            &&& forall|other: Seq<char>|
                other != file ==> #[trigger] scroll_of(b, other) == scroll_of(a, other)
        }),
{
}

/// Without a file there is nothing to scroll.
pub proof fn nothing_is_scrolled_without_a_file(a: AppView, height: usize, position: usize)
    requires
        a.current_file_idx >= a.file_names.len(),
    ensures
        cursor_shown(a, height) == a,
        scrolled_to(a, position) == a,
{
}

// ---- deciding ----

/// A decision is about the change that the user is at. The user goes on to the
/// next change of the file, and stays at the last one. Nothing else changes.
pub proof fn deciding_goes_on(a: AppView, state: ChangeState, file: Seq<char>)
    requires
        a.current_file_idx < a.file_names.len(),
        file == a.file_names[a.current_file_idx as int],
        a.rebase_changes.contains_key(file),
        a.current_change_idx < a.rebase_changes[file].len() <= usize::MAX,
    ensures
        ({
            let b = decided(a, state);
            let i = a.current_change_idx as int;
            let list = a.rebase_changes[file];
            &&& b == AppView {
                rebase_changes: b.rebase_changes,
                current_change_idx: b.current_change_idx,
                ..a
            }
            &&& b.rebase_changes == a.rebase_changes.insert(file, b.rebase_changes[file])
            &&& b.rebase_changes[file].len() == list.len()
            &&& b.rebase_changes[file][i] == (Change { state, ..list[i] })
            &&& forall|j: int|
                0 <= j < list.len() && j != i ==> #[trigger] b.rebase_changes[file][j] == list[j]
            &&& b.current_change_idx == if i + 1 < list.len() {
                i + 1
            } else {
                i
            }
        }),
{
}

/// Where there is no change to decide about, a decision changes nothing.
pub proof fn deciding_about_nothing_changes_nothing(a: AppView, state: ChangeState)
    requires
        a.current_file_idx >= a.file_names.len() || !a.rebase_changes.contains_key(
            a.file_names[a.current_file_idx as int],
        ) || a.current_change_idx
            >= a.rebase_changes[a.file_names[a.current_file_idx as int]].len(),
    ensures
        decided(a, state) == a,
{
}

// ---- from file to file ----

/// There are changes to decide about in the file at an index.
pub open spec fn waits(a: AppView, i: int) -> bool {
    a.rebase_changes.contains_key(a.file_names[i]) && a.rebase_changes[a.file_names[i]].len() > 0
}

/// Going on leads to the nearest file behind with changes to decide about,
/// around the end of the list, and to its first change.
pub proof fn next_file_is_the_nearest_behind(a: AppView, steps: int)
    requires
        1 <= steps < a.file_names.len() <= usize::MAX,
        waits(a, (a.current_file_idx + steps) % a.file_names.len() as int),
        forall|t: int|
            #![trigger a.current_file_idx + t]
            1 <= t < steps ==> !waits(a, (a.current_file_idx + t) % a.file_names.len() as int),
    ensures
        navigated(a, true) == (AppView {
            current_file_idx: ((a.current_file_idx + steps) % a.file_names.len() as int) as usize,
            current_change_idx: 0,
            ..a
        }),
{
    lemma_steps(a, true, 1, steps);
}

/// Going back leads to the nearest file before with changes to decide about,
/// around the start of the list, and to its first change.
pub proof fn previous_file_is_the_nearest_before(a: AppView, steps: int)
    requires
        1 <= steps < a.file_names.len() <= usize::MAX,
        waits(a, (a.current_file_idx + a.file_names.len() - steps) % a.file_names.len() as int),
        forall|t: int|
            #![trigger a.current_file_idx + a.file_names.len() - t]
            1 <= t < steps ==> !waits(
                a,
                (a.current_file_idx + a.file_names.len() - t) % a.file_names.len() as int,
            ),
    ensures
        navigated(a, false) == (AppView {
            current_file_idx: ((a.current_file_idx + a.file_names.len() - steps)
                % a.file_names.len() as int) as usize,
            current_change_idx: 0,
            ..a
        }),
{
    lemma_steps(a, false, 1, steps);
}

proof fn lemma_steps(a: AppView, forward: bool, first: int, steps: int)
    requires
        1 <= first <= steps < a.file_names.len(),
        forward ==> waits(a, (a.current_file_idx + steps) % a.file_names.len() as int),
        forward ==> forall|t: int|
            #![trigger a.current_file_idx + t]
            1 <= t < steps ==> !waits(a, (a.current_file_idx + t) % a.file_names.len() as int),
        !forward ==> waits(
            a,
            (a.current_file_idx + a.file_names.len() - steps) % a.file_names.len() as int,
        ),
        !forward ==> forall|t: int|
            #![trigger a.current_file_idx + a.file_names.len() - t]
            1 <= t < steps ==> !waits(
                a,
                (a.current_file_idx + a.file_names.len() - t) % a.file_names.len() as int,
            ),
    ensures
        steps_to_changes(a, forward, first) == Some(steps),
    decreases steps - first,
{
    if first < steps {
        if forward {
            assert(!waits(a, (a.current_file_idx + first) % a.file_names.len() as int));
        } else {
            assert(!waits(
                a,
                (a.current_file_idx + a.file_names.len() - first) % a.file_names.len() as int,
            ));
        }
        lemma_steps(a, forward, first + 1, steps);
    }
}

/// Where no other file has changes to decide about, the user stays.
pub proof fn user_stays_where_nothing_waits(a: AppView)
    ensures
        (forall|t: int|
            #![trigger a.current_file_idx + t]
            1 <= t < a.file_names.len() ==> !waits(
                a,
                (a.current_file_idx + t) % a.file_names.len() as int,
            )) ==> navigated(a, true) == a,
        (forall|t: int|
            #![trigger a.current_file_idx + a.file_names.len() - t]
            1 <= t < a.file_names.len() ==> !waits(
                a,
                (a.current_file_idx + a.file_names.len() - t) % a.file_names.len() as int,
            )) ==> navigated(a, false) == a,
{
    navigation_finds_the_nearest(a, true);
    navigation_finds_the_nearest(a, false);
    if let Some(steps) = steps_to_changes(a, true, 1) {
        assert(waits(a, (a.current_file_idx + steps) % a.file_names.len() as int));
    }
    if let Some(steps) = steps_to_changes(a, false, 1) {
        assert(waits(
            a,
            (a.current_file_idx + a.file_names.len() - steps) % a.file_names.len() as int,
        ));
    }
}

// ---- refreshing ----

/// A diff that was loaded anew is shown as far as it passes the filter, under
/// the names of its two sides. What has nothing to do with it stays.
pub proof fn refresh_shows_the_new_diff(a: AppView, data: Loaded, path: Seq<char>)
    requires
        data.files.dom().finite(),
        data.files.dom().len() <= usize::MAX,
    ensures
        ({
            let b = refreshed(a, Ok(data));
            let news = shown_files(a, data.files) != a.file_changes;
            &&& b.file_changes.contains_key(path) <==> data.files.contains_key(path) && passes(
                a.file_filter,
                path,
            )
            &&& b.file_changes.contains_key(path) ==> b.file_changes[path] == data.files[path]
            &&& !news ==> b == a
            &&& news ==> {
                &&& b.left_label == data.left && b.right_label == data.right
                &&& b.file_names.contains(path) <==> b.file_changes.contains_key(path)
                &&& forall|i: int, j: int|
                    0 <= i < j < b.file_names.len() ==> precedes(
                        #[trigger] b.file_names[i],
                        #[trigger] b.file_names[j],
                    )
                &&& b.scroll_positions.contains_key(path) <==> b.file_changes.contains_key(path)
                &&& b.file_changes.contains_key(path) && a.scroll_positions.contains_key(path)
                    ==> b.scroll_positions[path] == a.scroll_positions[path]
                &&& b.file_changes.contains_key(path) && !a.scroll_positions.contains_key(path)
                    ==> b.scroll_positions[path] == 0
                &&& b.app_mode == AppMode::Diff
                &&& a.app_mode == AppMode::Rebase ==> b.rebase_changes.dom() == Set::<
                    Seq<char>,
                >::empty() && b.current_change_idx == 0
                &&& a.app_mode != AppMode::Rebase ==> b.rebase_changes == a.rebase_changes
                    && b.current_change_idx == a.current_change_idx
                &&& b == AppView {
                    file_changes: b.file_changes,
                    left_label: b.left_label,
                    right_label: b.right_label,
                    file_names: b.file_names,
                    scroll_positions: b.scroll_positions,
                    current_file_idx: b.current_file_idx,
                    app_mode: b.app_mode,
                    rebase_changes: b.rebase_changes,
                    current_change_idx: b.current_change_idx,
                    ..a
                }
            }
        }),
{
    let shown = shown_files(a, data.files).dom();
    assert(shown.subset_of(data.files.dom()));
    listing_exists(shown);
    assert(is_listing(listing(shown), shown));
    assert(Map::<Seq<char>, Seq<Change>>::empty().dom() =~= Set::<Seq<char>>::empty());
}

/// The user stays at the file, where it is still shown, and is at the first
/// one otherwise.
pub proof fn refresh_finds_the_file_again(a: AppView, data: Loaded, file: Seq<char>)
    requires
        data.files.dom().finite(),
        data.files.dom().len() <= usize::MAX,
        a.current_file_idx < a.file_names.len(),
        file == a.file_names[a.current_file_idx as int],
        shown_files(a, data.files) != a.file_changes,
    ensures
        ({
            let b = refreshed(a, Ok(data));
            &&& data.files.contains_key(file) && passes(a.file_filter, file)
                ==> b.current_file_idx < b.file_names.len()
                && b.file_names[b.current_file_idx as int] == file
            &&& !(data.files.contains_key(file) && passes(a.file_filter, file))
                ==> b.current_file_idx == 0
        }),
{
    let shown = shown_files(a, data.files).dom();
    assert(shown.subset_of(data.files.dom()));
    vstd::set_lib::lemma_len_subset(shown, data.files.dom());
    listing_exists(shown);
    let names = listing(shown);
    if data.files.contains_key(file) && passes(a.file_filter, file) {
        assert(shown.contains(file));
        assert(names.contains(file));
        let i = names.index_of(file);
        assert(0 <= i < names.len());
    } else {
        assert(!names.contains(file));
    }
}

/// A user who was at no file is at the first one after a refresh that brought
/// something new.
pub proof fn refresh_starts_at_the_first_file(a: AppView, data: Loaded)
    requires
        a.current_file_idx >= a.file_names.len(),
        shown_files(a, data.files) != a.file_changes,
    ensures
        refreshed(a, Ok(data)).current_file_idx == 0,
{
}

/// A diff that could not be loaded changes nothing.
pub proof fn failed_refresh_changes_nothing(a: AppView, failure: Failure)
    ensures
        refreshed(a, Err(failure)) == a,
{
}

/// The list of a set of names holds each of them once, in their order.
pub proof fn listing_holds_each_name_once(
    names: Seq<Seq<char>>,
    set: Set<Seq<char>>,
    name: Seq<char>,
)
    requires
        is_listing(names, set),
    ensures
        names.contains(name) <==> set.contains(name),
        forall|i: int, j: int|
            0 <= i < j < names.len() ==> precedes(#[trigger] names[i], #[trigger] names[j])
                && names[i] != names[j],
{
    assert forall|i: int, j: int| 0 <= i < j < names.len() implies precedes(
        #[trigger] names[i],
        #[trigger] names[j],
    ) && names[i] != names[j] by {
        crate::text::lemma_precedes_total(names[i], names[j]);
    }
}

} // verus!
