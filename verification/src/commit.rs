//! Writing the accepted changes to the files.

use vstd::prelude::*;

use crate::edits::{edits, ChangeOp, Edit};
use crate::names::{distinct_names, has_name, index_of_name, lemma_map_of, map_of};
use crate::state::{App, AppMode, AppView, Change, ChangeState};
use crate::text::{concat, from_chars, join, joined, lemma_texts_push, texts, to_chars};

verus! {

/// A line without the plus sign in front of it.
pub open spec fn without_plus(content: Seq<char>) -> Seq<char> {
    if content.len() > 0 && content[0] == '+' {
        content.skip(1)
    } else {
        content
    }
}

/// A line without the plus sign in front of it.
pub fn strip_plus(content: &str) -> (r: String)
    ensures
        r@ == without_plus(content@),
{
    let chars: Vec<char> = to_chars(content);
    let len: usize = chars.len();
    let from: usize = if len > 0 && chars[0] == '+' {
        1
    } else {
        0
    };
    assert(chars@.subrange(from as int, len as int) =~= without_plus(content@));
    from_chars(&chars, from, len)
}

/// The edit that a change stands for: a line of the old version is replaced by
/// its counterpart or deleted, and a line of the new version is inserted.
pub open spec fn edit_of(change: Change) -> Edit {
    if change.is_base {
        match change.paired_content {
            Some(content) => Edit::Replace(change.line_num, without_plus(content@)),
            None => Edit::Delete(change.line_num),
        }
    } else {
        Edit::Insert {
            base_pos: match change.base_insert_pos {
                Some(pos) => pos,
                None => change.line_num,
            },
            order: change.line_num,
            content: without_plus(change.content@),
        }
    }
}

/// The edit that a change stands for.
pub fn change_operation(change: &Change) -> (r: ChangeOp)
    ensures
        r@ == edit_of(*change),
{
    if change.is_base {
        match &change.paired_content {
            Some(content) => ChangeOp::Replace(change.line_num, strip_plus(content)),
            None => ChangeOp::Delete(change.line_num),
        }
    } else {
        let base_pos: usize = match change.base_insert_pos {
            Some(pos) => pos,
            None => change.line_num,
        };
        ChangeOp::Insert { base_pos, order: change.line_num, content: strip_plus(&change.content) }
    }
}

/// The edits of the changes that were accepted, in order.
pub open spec fn accepted_edits(changes: Seq<Change>) -> Seq<Edit>
    decreases changes.len(),
{
    if changes.len() == 0 {
        Seq::empty()
    } else {
        let rest = accepted_edits(changes.drop_last());
        if changes.last().state == ChangeState::Accepted {
            rest.push(edit_of(changes.last()))
        } else {
            rest
        }
    }
}

/// The operations of the changes that were accepted, in order.
pub fn accepted_operations(changes: &Vec<Change>) -> (r: Vec<ChangeOp>)
    ensures
        edits(r@) == accepted_edits(changes@),
{
    let mut operations: Vec<ChangeOp> = Vec::new();
    let mut i: usize = 0;
    assert(edits(operations@) =~= accepted_edits(changes@.take(0)));
    while i < changes.len()
        invariant
            i <= changes@.len(),
            edits(operations@) == accepted_edits(changes@.take(i as int)),
        decreases changes@.len() - i,
    {
        let change: &Change = &changes[i];
        proof {
            assert(changes@.take(i + 1).drop_last() =~= changes@.take(i as int));
            assert(changes@.take(i + 1).last() == *change);
        }
        if change.state == ChangeState::Accepted {
            let ghost before = operations@;
            operations.push(change_operation(change));
            assert(edits(operations@) =~= edits(before).push(edit_of(*change)));
        }
        i = i + 1;
    }
    assert(changes@.take(i as int) =~= changes@);
    operations
}

/// The files with accepted changes, and the edits of each.
pub open spec fn planned(changes: Map<Seq<char>, Seq<Change>>) -> Map<Seq<char>, Seq<Edit>> {
    Map::new(
        |file: Seq<char>| changes.contains_key(file) && accepted_edits(changes[file]).len() > 0,
        |file: Seq<char>| accepted_edits(changes[file]),
    )
}

/// The edits of each file of a plan.
pub open spec fn plan_edits(plan: Seq<(String, Vec<ChangeOp>)>) -> Map<Seq<char>, Seq<Edit>> {
    map_of(plan).map_values(|operations: Vec<ChangeOp>| edits(operations@))
}

/// What is to be done to which file. The order of the files is of no account.
pub fn rebase_plan(app: &App) -> (plan: Vec<(String, Vec<ChangeOp>)>)
    ensures
        distinct_names(plan@),
        plan_edits(plan@) == planned(app@.rebase_changes),
{
    let mut plan: Vec<(String, Vec<ChangeOp>)> = Vec::new();
    let entries: &Vec<(String, Vec<Change>)> = app.rebase_changes.entries();
    let ghost items = entries@;
    let mut i: usize = 0;
    while i < entries.len()
        invariant
            i <= entries@.len(),
            items == entries@,
            distinct_names(items),
            distinct_names(plan@),
            forall|p: int|
                0 <= p < plan@.len() ==> exists|j: int|
                    0 <= j < i && (#[trigger] items[j]).0@ == (#[trigger] plan@[p]).0@ && edits(
                        plan@[p].1@,
                    ) == accepted_edits(items[j].1@) && plan@[p].1@.len() > 0,
            forall|j: int|
                0 <= j < i && accepted_edits((#[trigger] items[j]).1@).len() > 0 ==> has_name(
                    plan@,
                    items[j].0@,
                ),
        decreases entries@.len() - i,
    {
        let operations: Vec<ChangeOp> = accepted_operations(&entries[i].1);
        let ghost before = plan@;
        if operations.len() > 0 {
            let file: String = entries[i].0.clone();
            assert forall|p: int| 0 <= p < before.len() implies (#[trigger] before[p]).0@
                != file@ by {
                let j = choose|j: int|
                    0 <= j < i && (#[trigger] items[j]).0@ == before[p].0@ && edits(before[p].1@)
                        == accepted_edits(items[j].1@) && before[p].1@.len() > 0;
                assert(items[j].0@ != items[i as int].0@);
            }
            plan.push((file, operations));
            proof {
                assert forall|p: int| 0 <= p < plan@.len() implies exists|j: int|
                    0 <= j < i + 1 && (#[trigger] items[j]).0@ == (#[trigger] plan@[p]).0@ && edits(
                        plan@[p].1@,
                    ) == accepted_edits(items[j].1@) && plan@[p].1@.len() > 0 by {
                    if p < before.len() {
                        assert(plan@[p] == before[p]);
                    } else {
                        assert(items[i as int].0@ == plan@[p].0@);
                    }
                }
                assert forall|j: int|
                    0 <= j < i + 1 && accepted_edits((#[trigger] items[j]).1@).len()
                        > 0 implies has_name(plan@, items[j].0@) by {
                    if j < i {
                        let p = choose|p: int|
                            0 <= p < before.len() && (#[trigger] before[p]).0@ == items[j].0@;
                        assert(plan@[p] == before[p]);
                    } else {
                        assert(plan@[before.len() as int].0@ == items[j].0@);
                    }
                }
            }
        }
        i = i + 1;
    }
    proof {
        lemma_map_of(items);
        lemma_map_of(plan@);
        let want = planned(app@.rebase_changes);
        let have = plan_edits(plan@);
        assert forall|n: Seq<char>| #[trigger] have.dom().contains(n) == want.dom().contains(n) by {
            if have.dom().contains(n) {
                let p = index_of_name(plan@, n);
                assert(plan@[p].0@ == n);
                let j = choose|j: int|
                    0 <= j < items.len() && (#[trigger] items[j]).0@ == plan@[p].0@ && edits(
                        plan@[p].1@,
                    ) == accepted_edits(items[j].1@) && plan@[p].1@.len() > 0;
                assert(app.rebase_changes@[n] == items[j].1);
                assert(edits(plan@[p].1@).len() > 0);
            }
            if want.dom().contains(n) {
                let j = index_of_name(items, n);
                assert(items[j].0@ == n);
                assert(has_name(plan@, n));
            }
        }
        assert(have.dom() =~= want.dom());
        assert forall|n: Seq<char>| #[trigger] have.dom().contains(n) implies have[n]
            == want[n] by {
            let p = index_of_name(plan@, n);
            assert(plan@[p].0@ == n);
            let j = choose|j: int|
                0 <= j < items.len() && (#[trigger] items[j]).0@ == plan@[p].0@ && edits(
                    plan@[p].1@,
                ) == accepted_edits(items[j].1@) && plan@[p].1@.len() > 0;
            assert(app.rebase_changes@[n] == items[j].1);
        }
        assert(have =~= want);
    }
    plan
}

/// What came of each file, as texts: nothing, or what went wrong.
pub open spec fn outcome_texts(outcomes: Seq<(String, Option<String>)>) -> Seq<
    (Seq<char>, Option<Seq<char>>),
> {
    Seq::new(outcomes.len(), |i: int| (outcomes[i].0@, outcomes[i].1.deep_view()))
}

/// What went wrong, with the file it went wrong with.
pub open spec fn failures(outcomes: Seq<(Seq<char>, Option<Seq<char>>)>) -> Seq<Seq<char>>
    decreases outcomes.len(),
{
    if outcomes.len() == 0 {
        Seq::empty()
    } else {
        let rest = failures(outcomes.drop_last());
        match outcomes.last().1 {
            Some(error) => rest.push(outcomes.last().0 + ": "@ + error),
            None => rest,
        }
    }
}

/// The user is told what came of the files and is back at the diff.
pub open spec fn committed(
    a: AppView,
    outcomes: Seq<(Seq<char>, Option<Seq<char>>)>,
) -> AppView {
    AppView {
        status_message: Some(
            if failures(outcomes).len() > 0 {
                "Error: "@ + joined(failures(outcomes), "; "@)
            } else if outcomes.len() > 0 {
                "Changes applied successfully!"@
            } else {
                "No accepted changes to apply."@
            },
        ),
        app_mode: AppMode::Diff,
        ..a
    }
}

fn collect_failures(outcomes: &Vec<(String, Option<String>)>) -> (r: Vec<String>)
    ensures
        texts(r@) == failures(outcome_texts(outcomes@)),
{
    let ghost all = outcome_texts(outcomes@);
    let mut r: Vec<String> = Vec::new();
    let mut i: usize = 0;
    assert(texts(r@) =~= failures(all.take(0)));
    while i < outcomes.len()
        invariant
            i <= outcomes@.len(),
            all == outcome_texts(outcomes@),
            texts(r@) == failures(all.take(i as int)),
        decreases outcomes@.len() - i,
    {
        proof {
            assert(all.take(i + 1).drop_last() =~= all.take(i as int));
            assert(all.take(i + 1).last() == all[i as int]);
        }
        if let Some(error) = &outcomes[i].1 {
            let mut line: String = concat(&outcomes[i].0, ": ");
            line.append(error);
            proof {
                lemma_texts_push(r@, line);
            }
            r.push(line);
        }
        i = i + 1;
    }
    assert(all.take(i as int) =~= all);
    r
}

/// Ends the choice of changes, once what [`rebase_plan`] says has been tried:
/// `outcomes` has an entry for each file of the plan, with what went wrong.
pub fn commit_rebase_changes(app: &mut App, outcomes: &Vec<(String, Option<String>)>)
    ensures
        final(app)@ == committed(old(app)@, outcome_texts(outcomes@)),
{
    let errors: Vec<String> = collect_failures(outcomes);
    // Surface feedback through the UI
    let message: String = if errors.len() > 0 {
        concat("Error: ", &join(&errors, "; "))
    } else if outcomes.len() > 0 {
        "Changes applied successfully!".to_string()
    } else {
        "No accepted changes to apply.".to_string()
    };
    app.status_message = Some(message);
    // Return to diff mode
    app.app_mode = AppMode::Diff;
}

/// Changes that were not accepted are not written: without them the plan is
/// the same.
pub proof fn only_accepted_are_written(changes: Seq<Change>)
    ensures
        accepted_edits(changes) == accepted_edits(
            changes.filter(|c: Change| c.state == ChangeState::Accepted),
        ),
        accepted_edits(changes).len() == changes.filter(
            |c: Change| c.state == ChangeState::Accepted,
        ).len(),
    decreases changes.len(),
{
    reveal(Seq::filter);
    let chosen = |c: Change| c.state == ChangeState::Accepted;
    if changes.len() > 0 {
        let rest = changes.drop_last();
        only_accepted_are_written(rest);
        if chosen(changes.last()) {
            assert(changes.filter(chosen) == rest.filter(chosen).push(changes.last()));
            assert(rest.filter(chosen).push(changes.last()).drop_last() =~= rest.filter(chosen));
        }
    }
}

/// Where nothing was accepted, nothing is planned.
pub proof fn nothing_accepted_nothing_planned(changes: Map<Seq<char>, Seq<Change>>)
    requires
        forall|file: Seq<char>, i: int|
            changes.contains_key(file) && 0 <= i < changes[file].len() ==> (
            #[trigger] changes[file][i]).state != ChangeState::Accepted,
    ensures
        planned(changes) == Map::<Seq<char>, Seq<Edit>>::empty(),
{
    assert forall|file: Seq<char>| !#[trigger] planned(changes).contains_key(file) by {
        if changes.contains_key(file) {
            let list = changes[file];
            only_accepted_are_written(list);
            let chosen = list.filter(|c: Change| c.state == ChangeState::Accepted);
            if chosen.len() > 0 {
                list.lemma_filter_contains_rev(
                    |c: Change| c.state == ChangeState::Accepted,
                    chosen[0],
                );
            }
        }
    }
    assert(planned(changes) =~= Map::<Seq<char>, Seq<Edit>>::empty());
}

} // verus!
