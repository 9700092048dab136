//! What holds of every key, every turn of the wheel and every refresh.

use vstd::prelude::*;

use crate::error::Failure;
use crate::input::{Key, LayoutView, Mouse, Size, Task};
use crate::keys::{in_content, key_step, next_theme, reads_layout, takes_key, Meaning};
use crate::mouse::{is_covered, mouse_step};
use crate::moves::{
    cursor_shown, decided, has_changes, lemma_ring, navigated, ring_place, scroll_of,
    steps_to_changes,
};
use crate::names::{is_listing, listing, listing_exists};
use crate::refresh::{refreshed, shown_files};
use crate::sources::Loaded;
use crate::state::{current_changes, current_file, AppMode, AppView, Change, ChangeState};

verus! {

// ---- the place in the list of files ----

/// The user is at a file of the list, or at its start.
pub open spec fn at_a_file(a: AppView) -> bool {
    a.current_file_idx < a.file_names.len() || a.current_file_idx == 0
}

/// The lists are no longer than a machine can hold.
pub open spec fn fits(a: AppView) -> bool {
    &&& a.file_names.len() <= usize::MAX
    &&& forall|file: Seq<char>|
        a.rebase_changes.contains_key(file) ==> (#[trigger] a.rebase_changes[file]).len()
            <= usize::MAX
}

/// No key leads out of the list of files.
pub proof fn keys_stay_in_the_list(a: AppView, key: Key, l: LayoutView)
    requires
        at_a_file(a),
        fits(a),
    ensures
        at_a_file(key_step(a, key, l).0),
        key_step(a, key, l).0.file_names == a.file_names,
{
    let b = AppView { status_message: None, ..a };
    if a.app_mode == AppMode::Rebase {
        navigation_finds_the_nearest(b, true);
        navigation_finds_the_nearest(b, false);
    }
}

/// The mouse does not lead out of the list of files.
pub proof fn mouse_stays_in_the_list(a: AppView, mouse: Mouse, size: Size)
    requires
        at_a_file(a),
        fits(a),
    ensures
        at_a_file(mouse_step(a, mouse, size)),
        mouse_step(a, mouse, size).file_names == a.file_names,
{
}

/// The files that are shown are no more than those that are loaded.
proof fn lemma_shown_files(a: AppView, data: Loaded)
    requires
        data.files.dom().finite(),
    ensures
        ({
            let shown = shown_files(a, data.files).dom();
            &&& is_listing(listing(shown), shown)
            &&& listing(shown).len() <= data.files.dom().len()
        }),
{
    let shown = shown_files(a, data.files).dom();
    assert(shown.subset_of(data.files.dom()));
    vstd::set_lib::lemma_len_subset(shown, data.files.dom());
    listing_exists(shown);
}

/// After a refresh the user is at a file of the new list.
pub proof fn refresh_stays_in_the_list(a: AppView, data: Loaded)
    requires
        at_a_file(a),
        data.files.dom().finite(),
        data.files.dom().len() <= usize::MAX,
    ensures
        at_a_file(refreshed(a, Ok(data))),
{
    lemma_shown_files(a, data);
    let names = listing(shown_files(a, data.files).dom());
    match current_file(a) {
        Some(file) => {
            if names.contains(file) {
                let i = names.index_of(file);
                assert(0 <= i < names.len());
            }
        },
        None => {},
    }
}

// ---- the place in the list of changes ----

/// The user is at one of the changes of the file, where it has any.
pub open spec fn at_a_change(a: AppView) -> bool {
    match current_changes(a) {
        Some(changes) => changes.len() > 0 ==> a.current_change_idx < changes.len(),
        None => true,
    }
}

/// While changes are chosen, no key leads out of the list of changes.
pub proof fn keys_stay_among_changes(a: AppView, key: Key, l: LayoutView)
    requires
        a.app_mode == AppMode::Rebase,
        at_a_change(a),
        fits(a),
    ensures
        at_a_change(key_step(a, key, l).0),
{
    let b = AppView { status_message: None, ..a };
    navigation_finds_the_nearest(b, true);
    navigation_finds_the_nearest(b, false);
}

/// While changes are chosen, the mouse does not lead out of the list of
/// changes.
pub proof fn mouse_stays_among_changes(a: AppView, mouse: Mouse, size: Size)
    requires
        a.app_mode == AppMode::Rebase,
        at_a_change(a),
        fits(a),
    ensures
        at_a_change(mouse_step(a, mouse, size)),
{
}

/// Deciding about a change leaves every other change, and everything about
/// this one but its state, as it was.
pub proof fn deciding_touches_one_change(a: AppView, state: ChangeState, file: Seq<char>, i: int)
    requires
        a.rebase_changes.contains_key(file),
        0 <= i < a.rebase_changes[file].len(),
    ensures
        ({
            let b = decided(a, state);
            &&& b.rebase_changes.dom() == a.rebase_changes.dom()
            &&& b.rebase_changes[file].len() == a.rebase_changes[file].len()
            &&& b.rebase_changes[file][i] == if current_file(a) == Some(file)
                && a.current_change_idx == i {
                Change { state, ..a.rebase_changes[file][i] }
            } else {
                a.rebase_changes[file][i]
            }
        }),
{
    assert(decided(a, state).rebase_changes.dom() =~= a.rebase_changes.dom());
}

// ---- from file to file ----

/// The next and the previous file are the nearest ones with changes: all that
/// lie between have none. Where no other file has any, the user stays.
pub proof fn navigation_finds_the_nearest(a: AppView, forward: bool)
    ensures
        match steps_to_changes(a, forward, 1) {
            Some(steps) => {
                let len = a.file_names.len() as int;
                let from = a.current_file_idx as int;
                &&& 1 <= steps < len
                &&& 0 <= ring_place(from, len, forward, steps) < len
                &&& has_changes(a, ring_place(from, len, forward, steps))
                &&& forall|t: int|
                    1 <= t < steps ==> !has_changes(a, #[trigger] ring_place(from, len, forward, t))
            },
            None => navigated(a, forward) == a && forall|t: int|
                1 <= t < a.file_names.len() ==> !has_changes(
                    a,
                    #[trigger] ring_place(
                        a.current_file_idx as int,
                        a.file_names.len() as int,
                        forward,
                        t,
                    ),
                ),
        },
{
    lemma_nearest_from(a, forward, 1);
    if let Some(steps) = steps_to_changes(a, forward, 1) {
        lemma_ring(a.current_file_idx as int, a.file_names.len() as int, steps);
    }
}

proof fn lemma_nearest_from(a: AppView, forward: bool, first: int)
    requires
        first >= 1,
    ensures
        match steps_to_changes(a, forward, first) {
            Some(steps) => {
                let len = a.file_names.len() as int;
                let from = a.current_file_idx as int;
                &&& first <= steps < len
                &&& has_changes(a, ring_place(from, len, forward, steps))
                &&& forall|t: int|
                    first <= t < steps ==> !has_changes(
                        a,
                        #[trigger] ring_place(from, len, forward, t),
                    )
            },
            None => forall|t: int|
                first <= t < a.file_names.len() ==> !has_changes(
                    a,
                    #[trigger] ring_place(
                        a.current_file_idx as int,
                        a.file_names.len() as int,
                        forward,
                        t,
                    ),
                ),
        },
    decreases a.file_names.len() - first,
{
    if first < a.file_names.len() && !has_changes(
        a,
        ring_place(a.current_file_idx as int, a.file_names.len() as int, forward, first),
    ) {
        lemma_nearest_from(a, forward, first + 1);
    }
}

/// From a file with changes, or where no other file has any, going to the next
/// one and back again, or to the previous one and on again, leads to where the
/// user was.
pub proof fn navigation_turns_back(a: AppView, forward: bool)
    requires
        fits(a),
        a.current_file_idx < a.file_names.len() && has_changes(a, a.current_file_idx as int)
            || steps_to_changes(a, forward, 1) is None,
    ensures
        navigated(navigated(a, forward), !forward).current_file_idx == a.current_file_idx,
{
    let back = !forward;
    navigation_finds_the_nearest(a, forward);
    if let Some(steps) = steps_to_changes(a, forward, 1) {
        let len = a.file_names.len() as int;
        let from = a.current_file_idx as int;
        let b = navigated(a, forward);
        let there = ring_place(from, len, forward, steps);
        assert(b.current_file_idx == there);
        vstd::arithmetic::div_mod::lemma_small_mod(from as nat, len as nat);
        vstd::arithmetic::div_mod::lemma_small_mod(there as nat, len as nat);
        lemma_ring(from, len, steps);
        lemma_ring(there, len, steps);
        assert(ring_place(there, len, back, steps) == from);
        assert forall|t: int| 1 <= t < steps implies !has_changes(
            b,
            #[trigger] ring_place(there, len, back, t),
        ) by {
            lemma_ring(there, len, t);
            lemma_ring(from, len, steps - t);
            assert(ring_place(there, len, back, t) == ring_place(from, len, forward, steps - t));
        }
        navigation_finds_the_nearest(b, back);
        assert(has_changes(b, ring_place(there, len, back, steps)));
        match steps_to_changes(b, back, 1) {
            Some(s) => {
                if s < steps {
                    assert(!has_changes(b, ring_place(there, len, back, s)));
                }
                assert(s == steps);
            },
            None => {},
        }
    } else {
        assert(navigated(a, forward) == a);
        navigation_finds_the_nearest(a, back);
        if let Some(steps) = steps_to_changes(a, back, 1) {
            let len = a.file_names.len() as int;
            let from = a.current_file_idx as int;
            lemma_ring(from, len, steps);
            lemma_ring(from, len, len - steps);
            assert(ring_place(from, len, back, steps) == ring_place(
                from,
                len,
                forward,
                len - steps,
            ));
        }
    }
}

// ---- lines ----

/// The line of the cursor is on the screen once it is scrolled to.
pub proof fn cursor_is_visible(a: AppView, height: usize, file: Seq<char>)
    requires
        height > 0,
        current_file(a) == Some(file),
    ensures
        ({
            let b = cursor_shown(a, height);
            &&& b.cursor_line == a.cursor_line
            &&& current_file(b) == Some(file)
            &&& scroll_of(b, file) <= b.cursor_line < scroll_of(b, file) + height
        }),
{
}

/// The cursor does not leave the content of a diff.
pub proof fn cursor_stays_in_content(a: AppView, m: Meaning, page: usize, total: usize)
    requires
        a.cursor_line < total,
    ensures
        in_content(a, m, page, total).cursor_line < total,
{
}

/// The cursor never runs out of numbers, so that no key is refused but in a
/// comment.
pub proof fn cursor_stays_countable(a: AppView, key: Key, l: LayoutView)
    requires
        a.cursor_line < usize::MAX,
    ensures
        is_covered(a) || a.comment_input is None ==> takes_key(a, key, l),
        key_step(a, key, l).0.cursor_line < usize::MAX,
{
}

// ---- switches ----

/// The key for the other pane, pressed twice, changes nothing; nor does the key
/// for the other view, unless it goes into a comment.
pub proof fn switches_turn_back(a: AppView, l: LayoutView)
    ensures
        key_step(key_step(a, Key::Tab, l).0, Key::Tab, l) == (
            AppView { status_message: None, ..a },
            Task::Continue,
        ),
        is_covered(a) || a.comment_input is None ==> key_step(
            key_step(a, Key::Char('u'), l).0,
            Key::Char('u'),
            l,
        ) == (AppView { status_message: None, ..a }, Task::Continue),
{
}

/// The state after a number of changes of colours.
pub open spec fn themes_on(a: AppView, n: nat) -> AppView
    decreases n,
{
    if n == 0 {
        a
    } else {
        next_theme(themes_on(a, (n - 1) as nat))
    }
}

/// The colours come round: after as many changes as there are sets, they are
/// what they were.
pub proof fn themes_come_round(a: AppView)
    requires
        a.theme_cycle_idx < a.theme_cycle.len() <= usize::MAX,
        a.theme == a.theme_cycle[a.theme_cycle_idx as int],
    ensures
        themes_on(a, a.theme_cycle.len()) == a,
{
    let len = a.theme_cycle.len() as int;
    lemma_themes_on(a, a.theme_cycle.len());
    vstd::arithmetic::div_mod::lemma_mod_add_multiples_vanish(a.theme_cycle_idx as int, len);
    vstd::arithmetic::div_mod::lemma_small_mod(a.theme_cycle_idx as nat, len as nat);
}

proof fn lemma_themes_on(a: AppView, n: nat)
    requires
        a.theme_cycle_idx < a.theme_cycle.len() <= usize::MAX,
        a.theme == a.theme_cycle[a.theme_cycle_idx as int],
    ensures
        ({
            let i = (a.theme_cycle_idx + n) % a.theme_cycle.len() as int;
            &&& 0 <= i < a.theme_cycle.len()
            &&& themes_on(a, n) == (AppView {
                theme_cycle_idx: i as usize,
                theme: a.theme_cycle[i],
                ..a
            })
        }),
    decreases n,
{
    let len = a.theme_cycle.len() as int;
    if n == 0 {
        vstd::arithmetic::div_mod::lemma_small_mod(a.theme_cycle_idx as nat, len as nat);
    } else {
        let before = (n - 1) as nat;
        lemma_themes_on(a, before);
        let k = a.theme_cycle_idx + before;
        vstd::arithmetic::div_mod::lemma_mod_bound(k, len);
        vstd::arithmetic::div_mod::lemma_mod_bound(k + 1, len);
        vstd::arithmetic::div_mod::lemma_add_mod_noop(k, 1, len);
        vstd::arithmetic::div_mod::lemma_add_mod_noop(k % len, 1, len);
        vstd::arithmetic::div_mod::lemma_mod_twice(k, len);
        assert((k % len + 1) % len == (k + 1) % len);
    }
}

// ---- in front of the diff ----

/// While something stands in front of the diff, a key does no more than take
/// it away, clear the message, or start the rebase that is proposed; the mouse
/// does nothing.
pub proof fn modals_swallow_input(a: AppView, key: Key, l: LayoutView, mouse: Mouse, size: Size)
    requires
        is_covered(a),
    ensures
        ({
            let (b, task) = key_step(a, key, l);
            &&& b == (AppView {
                status_message: None,
                show_help_modal: b.show_help_modal,
                show_rebase_modal: b.show_rebase_modal,
                ..a
            })
            &&& task == Task::Continue || task == Task::RunRebase && !a.show_help_modal && key
                == Key::Char('r')
            &&& b.show_help_modal ==> a.show_help_modal
            &&& b.show_rebase_modal ==> a.show_rebase_modal
        }),
        mouse_step(a, mouse, size) == a,
{
}

/// Every key clears the message.
pub proof fn keys_clear_the_message(a: AppView, key: Key, l: LayoutView)
    ensures
        key_step(a, key, l).0.status_message is None,
{
}

/// Only the key for it sends a comment, and only a comment that was being
/// written; the comment is over then.
pub proof fn comments_are_sent_on_request(a: AppView, key: Key, l: LayoutView)
    ensures
        key_step(a, key, l).1 is SendComment ==> key == Key::Enter && a.comment_input is Some
            && key_step(a, key, l).0.comment_input is None,
{
}

/// Only the key for it, pressed while changes are chosen, has files written.
pub proof fn files_are_written_on_request(a: AppView, key: Key, l: LayoutView)
    ensures
        key_step(a, key, l).1 == Task::CommitChanges ==> key == Key::Char('c') && a.app_mode
            == AppMode::Rebase,
{
}

/// How the diff lies on the screen matters only to the keys that read it.
pub proof fn layout_matters_where_it_is_read(a: AppView, key: Key, l: LayoutView, m: LayoutView)
    requires
        !reads_layout(a, key),
    ensures
        key_step(a, key, l) == key_step(a, key, m),
        takes_key(a, key, l) == takes_key(a, key, m),
{
}

// ---- refreshing ----

/// A diff that is what it was, and one that could not be loaded, change
/// nothing.
pub proof fn refresh_without_news(a: AppView, data: Loaded, failure: Failure)
    ensures
        shown_files(a, data.files) == a.file_changes ==> refreshed(a, Ok(data)) == a,
        refreshed(a, Err(failure)) == a,
{
}

/// Taking in the same diff a second time changes nothing.
pub proof fn refresh_settles(a: AppView, data: Loaded)
    ensures
        refreshed(refreshed(a, Ok(data)), Ok(data)) == refreshed(a, Ok(data)),
{
}

/// After a refresh the user is still at the file, if it is still there, and
/// every file that is still there is scrolled as it was. After one that brought
/// something new, the list of files is that of the new diff, in order, and the
/// choice of changes is over.
pub proof fn refresh_keeps_the_place(a: AppView, data: Loaded, file: Seq<char>)
    requires
        shown_files(a, data.files).contains_key(file),
        data.files.dom().finite(),
        data.files.dom().len() <= usize::MAX,
    ensures
        ({
            let b = refreshed(a, Ok(data));
            &&& current_file(a) == Some(file) ==> current_file(b) == Some(file)
            &&& scroll_of(b, file) == scroll_of(a, file)
            &&& shown_files(a, data.files) != a.file_changes ==> {
                &&& is_listing(b.file_names, b.file_changes.dom())
                &&& b.app_mode == AppMode::Diff
                &&& a.app_mode == AppMode::Rebase ==> b.rebase_changes == Map::<
                    Seq<char>,
                    Seq<Change>,
                >::empty()
            }
        }),
{
    lemma_shown_files(a, data);
    assert(listing(shown_files(a, data.files).dom()).contains(file));
}

} // verus!
