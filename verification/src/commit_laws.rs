//! What the accepted changes do to the files.

use vstd::prelude::*;

use crate::commit::{
    accepted_edits, committed, edit_of, failures, outcome_texts, plan_edits, planned, without_plus,
};
use crate::contents::rejoined;
use crate::edits::{edits, ChangeOp, Edit};
use crate::names::{distinct_names, lemma_map_of};
use crate::state::{AppMode, AppView, Change, ChangeState};
use crate::text::joined;

verus! {

// ---- from changes to edits ----

/// The plus sign in front of a line comes off, and nothing else does.
pub proof fn only_the_plus_sign_comes_off(t: Seq<char>)
    ensures
        without_plus(seq!['+'] + t) == t,
        t.len() == 0 || t[0] != '+' ==> without_plus(t) == t,
{
    assert((seq!['+'] + t).skip(1) =~= t);
}

/// A line of the old version that has a counterpart is replaced by exactly the
/// text behind the plus sign of that, white space included. One without a
/// counterpart is deleted.
pub proof fn old_lines_are_replaced_or_deleted(change: Change, t: Seq<char>)
    requires
        change.is_base,
    ensures
        change.paired_content is Some && change.paired_content->0@ == seq!['+'] + t ==> edit_of(
            change,
        ) == Edit::Replace(change.line_num, t),
        change.paired_content is Some && change.paired_content->0@ == t && (t.len() == 0 || t[0]
            != '+') ==> edit_of(change) == Edit::Replace(change.line_num, t),
        change.paired_content is None ==> edit_of(change) == Edit::Delete(change.line_num),
{
    assert((seq!['+'] + t).skip(1) =~= t);
}

/// Exactly the text behind the plus sign of a line of the new version is
/// inserted, white space included: where the line goes in the old version, or
/// at its own number where that is not known, in the order of the new version.
pub proof fn new_lines_are_inserted(change: Change, t: Seq<char>)
    requires
        !change.is_base,
        change.content@ == seq!['+'] + t || change.content@ == t && (t.len() == 0 || t[0] != '+'),
    ensures
        edit_of(change) == (Edit::Insert {
            base_pos: if change.base_insert_pos is Some {
                change.base_insert_pos->0
            } else {
                change.line_num
            },
            order: change.line_num,
            content: t,
        }),
{
    assert((seq!['+'] + t).skip(1) =~= t);
}

/// The edits of a list of changes are those of the accepted ones, one for each,
/// in their order.
pub proof fn accepted_changes_become_edits(changes: Seq<Change>)
    ensures
        accepted_edits(changes) == changes.filter(
            |c: Change| c.state == ChangeState::Accepted,
        ).map_values(|c: Change| edit_of(c)),
    decreases changes.len(),
{
    reveal(Seq::filter);
    let chosen = |c: Change| c.state == ChangeState::Accepted;
    let edit = |c: Change| edit_of(c);
    if changes.len() == 0 {
        assert(accepted_edits(changes) =~= changes.filter(chosen).map_values(edit));
    } else {
        let front = changes.drop_last();
        let last = changes.last();
        accepted_changes_become_edits(front);
        if chosen(last) {
            assert(changes.filter(chosen) == front.filter(chosen).push(last));
            assert(front.filter(chosen).push(last).map_values(edit) =~= front.filter(
                chosen,
            ).map_values(edit).push(edit_of(last)));
        }
    }
}

/// An accepted change shows in the edits of its file, and a file without any is
/// left alone. A file with accepted changes gets their edits and no others.
pub proof fn files_with_accepted_changes_are_planned(
    changes: Map<Seq<char>, Seq<Change>>,
    file: Seq<char>,
)
    ensures
        planned(changes).contains_key(file) <==> changes.contains_key(file) && exists|i: int|
            0 <= i < changes[file].len() && (#[trigger] changes[file][i]).state
                == ChangeState::Accepted,
        planned(changes).contains_key(file) ==> planned(changes)[file] == changes[file].filter(
            |c: Change| c.state == ChangeState::Accepted,
        ).map_values(|c: Change| edit_of(c)),
{
    if changes.contains_key(file) {
        let list = changes[file];
        let chosen = |c: Change| c.state == ChangeState::Accepted;
        accepted_changes_become_edits(list);
        let kept = list.filter(chosen);
        if kept.len() > 0 {
            assert(kept.contains(kept[0]));
            list.lemma_filter_contains_rev(chosen, kept[0]);
            let i = choose|i: int| 0 <= i < list.len() && list[i] == kept[0];
            list.lemma_filter_pred(chosen, 0);
            assert(list[i].state == ChangeState::Accepted);
        }
        if exists|i: int|
            0 <= i < list.len() && (#[trigger] list[i]).state == ChangeState::Accepted {
            let i = choose|i: int|
                0 <= i < list.len() && (#[trigger] list[i]).state == ChangeState::Accepted;
            list.lemma_filter_contains(chosen, i);
            assert(kept.contains(list[i]));
        }
    }
}

/// What a list of operations stands for is one edit for each, in order.
pub proof fn operations_stand_for_their_edits(ops: Seq<ChangeOp>)
    ensures
        edits(ops).len() == ops.len(),
        forall|i: int|
            0 <= i < ops.len() ==> match #[trigger] ops[i] {
                ChangeOp::Replace(n, content) => edits(ops)[i] == Edit::Replace(n, content@),
                ChangeOp::Delete(n) => edits(ops)[i] == Edit::Delete(n),
                ChangeOp::Insert { base_pos, order, content } => edits(ops)[i] == (Edit::Insert {
                    base_pos,
                    order,
                    content: content@,
                }),
            },
{
}

/// A plan stands for the operations under each of its names.
pub proof fn plan_holds_what_it_lists(plan: Seq<(String, Vec<ChangeOp>)>, i: int)
    requires
        distinct_names(plan),
        0 <= i < plan.len(),
    ensures
        plan_edits(plan).contains_key(plan[i].0@),
        plan_edits(plan)[plan[i].0@] == edits(plan[i].1@),
        forall|file: Seq<char>| #[trigger]
            plan_edits(plan).contains_key(file) ==> exists|j: int|
                0 <= j < plan.len() && (#[trigger] plan[j]).0@ == file,
{
    lemma_map_of(plan);
}

// ---- what the user is told ----

/// The failures among the outcomes, in their order.
pub proof fn failures_are_told_with_their_files(outcomes: Seq<(Seq<char>, Option<Seq<char>>)>)
    ensures
        failures(outcomes) == outcomes.filter(
            |o: (Seq<char>, Option<Seq<char>>)| o.1 is Some,
        ).map_values(|o: (Seq<char>, Option<Seq<char>>)| o.0 + ": "@ + o.1->0),
    decreases outcomes.len(),
{
    reveal(Seq::filter);
    let failed = |o: (Seq<char>, Option<Seq<char>>)| o.1 is Some;
    let text = |o: (Seq<char>, Option<Seq<char>>)| o.0 + ": "@ + o.1->0;
    if outcomes.len() == 0 {
        assert(failures(outcomes) =~= outcomes.filter(failed).map_values(text));
    } else {
        let front = outcomes.drop_last();
        let last = outcomes.last();
        failures_are_told_with_their_files(front);
        if failed(last) {
            assert(outcomes.filter(failed) == front.filter(failed).push(last));
            assert(front.filter(failed).push(last).map_values(text) =~= front.filter(
                failed,
            ).map_values(text).push(text(last)));
        }
    }
}

/// After the files were written the user is back at the diff and told what came
/// of it; nothing else changes.
pub proof fn writing_ends_with_a_message(
    a: AppView,
    outcomes: Seq<(Seq<char>, Option<Seq<char>>)>,
)
    ensures
        ({
            let b = committed(a, outcomes);
            &&& b == AppView { app_mode: AppMode::Diff, status_message: b.status_message, ..a }
            &&& outcomes.len() == 0 ==> b.status_message == Some("No accepted changes to apply."@)
            &&& outcomes.len() > 0 && (forall|i: int|
                0 <= i < outcomes.len() ==> (#[trigger] outcomes[i]).1 is None)
                ==> b.status_message == Some("Changes applied successfully!"@)
            &&& (exists|i: int| 0 <= i < outcomes.len() && (#[trigger] outcomes[i]).1 is Some)
                ==> b.status_message == Some(
                "Error: "@ + joined(
                    outcomes.filter(
                        |o: (Seq<char>, Option<Seq<char>>)| o.1 is Some,
                    ).map_values(|o: (Seq<char>, Option<Seq<char>>)| o.0 + ": "@ + o.1->0),
                    "; "@,
                ),
            )
        }),
{
    let failed = |o: (Seq<char>, Option<Seq<char>>)| o.1 is Some;
    failures_are_told_with_their_files(outcomes);
    let kept = outcomes.filter(failed);
    if kept.len() > 0 {
        assert(kept.contains(kept[0]));
        outcomes.lemma_filter_contains_rev(failed, kept[0]);
        let i = choose|i: int| 0 <= i < outcomes.len() && outcomes[i] == kept[0];
        outcomes.lemma_filter_pred(failed, 0);
        assert(outcomes[i].1 is Some);
    }
    if exists|i: int| 0 <= i < outcomes.len() && (#[trigger] outcomes[i]).1 is Some {
        let i = choose|i: int| 0 <= i < outcomes.len() && (#[trigger] outcomes[i]).1 is Some;
        outcomes.lemma_filter_contains(failed, i);
        assert(kept.contains(outcomes[i]));
        assert(kept.len() > 0);
    }
}

/// The outcomes as texts are those of the files, in their order.
pub proof fn outcomes_are_those_of_the_files(outcomes: Seq<(String, Option<String>)>)
    ensures
        outcome_texts(outcomes).len() == outcomes.len(),
        forall|i: int|
            0 <= i < outcomes.len() ==> (#[trigger] outcome_texts(outcomes)[i]).0 == outcomes[i].0@
                && (outcome_texts(outcomes)[i].1 is Some <==> outcomes[i].1 is Some) && (
            outcomes[i].1 is Some ==> outcome_texts(outcomes)[i].1->0 == outcomes[i].1->0@),
{
}

// ---- the file as it is written ----

/// A file is written as its lines with a newline between each two, and one at
/// the end exactly if it had one there before, whatever was changed.
pub proof fn files_keep_their_endings(lines: Seq<Seq<char>>, content: Seq<char>)
    ensures
        rejoined(lines, content + seq!['\n']) == joined(lines, seq!['\n']) + seq!['\n'],
        content.len() == 0 || content.last() != '\n' ==> rejoined(lines, content) == joined(
            lines,
            seq!['\n'],
        ),
{
    reveal_strlit("\n");
    assert("\n"@ =~= seq!['\n']);
    assert((content + seq!['\n']).last() == '\n');
    assert(joined(lines, "\n"@) + Seq::<char>::empty() =~= joined(lines, "\n"@));
}

} // verus!
