//! Taking in what has changed on disk.

use vstd::prelude::*;

use crate::error::Failure;
use crate::filter::passes;
use crate::git::GitOutput;
use crate::names::{is_listing, lemma_map_of, listing, NameMap};
use crate::parse::{all_sides, numbered, sides, FileChanges, FileDiff, LineChange};
use crate::sources::{can_load, contents, load, load_changes, plainly_loaded, Loaded};
use crate::state::{change_lists, current_file, App, AppMode, AppView, Change};
use crate::text::texts;

verus! {

// ---- comparing diffs ----

fn same_lines(a: &Vec<LineChange>, b: &Vec<LineChange>) -> (r: bool)
    ensures
        r == (numbered(a@) == numbered(b@)),
{
    if a.len() != b.len() {
        assert(numbered(a@).len() != numbered(b@).len());
        return false;
    }
    let mut i: usize = 0;
    while i < a.len()
        invariant
            i <= a@.len() == b@.len(),
            forall|j: int| 0 <= j < i ==> #[trigger] numbered(a@)[j] == numbered(b@)[j],
        decreases a@.len() - i,
    {
        if a[i].0 != b[i].0 || a[i].1 != b[i].1 {
            assert(numbered(a@)[i as int] != numbered(b@)[i as int]);
            return false;
        }
        i = i + 1;
    }
    assert(numbered(a@) =~= numbered(b@));
    true
}

fn same_diff(a: &FileDiff, b: &FileDiff) -> (r: bool)
    ensures
        r == (sides(*a) == sides(*b)),
{
    same_lines(&a.0, &b.0) && same_lines(&a.1, &b.1)
}

/// Whether two sets of changes say the same of the same files.
pub fn same_changes(a: &FileChanges, b: &FileChanges) -> (r: bool)
    ensures
        r == (all_sides(a@) == all_sides(b@)),
{
    let left = a.entries();
    let right = b.entries();
    proof {
        lemma_map_of(left@);
        lemma_map_of(right@);
    }
    let mut i: usize = 0;
    while i < left.len()
        invariant
            i <= left@.len(),
            forall|j: int|
                0 <= j < left@.len() ==> a@.contains_key((#[trigger] left@[j]).0@)
                    && a@[left@[j].0@] == left@[j].1,
            forall|j: int|
                0 <= j < i ==> b@.contains_key((#[trigger] left@[j]).0@) && sides(
                    b@[left@[j].0@],
                ) == sides(left@[j].1),
        decreases left@.len() - i,
    {
        let same: bool = match b.get(&left[i].0) {
            Some(d) => same_diff(&left[i].1, d),
            None => false,
        };
        if !same {
            proof {
                let n = left@[i as int].0@;
                assert(all_sides(a@).contains_key(n));
                assert(all_sides(a@)[n] == sides(left@[i as int].1));
                if all_sides(a@) == all_sides(b@) {
                    assert(all_sides(b@).contains_key(n));
                    assert(all_sides(b@)[n] == sides(b@[n]));
                }
            }
            return false;
        }
        i = i + 1;
    }
    let mut k: usize = 0;
    while k < right.len()
        invariant
            k <= right@.len(),
            forall|j: int| 0 <= j < right@.len() ==> b@.contains_key((#[trigger] right@[j]).0@),
            forall|j: int| 0 <= j < k ==> a@.contains_key((#[trigger] right@[j]).0@),
        decreases right@.len() - k,
    {
        if !a.contains_key(&right[k].0) {
            proof {
                let n = right@[k as int].0@;
                assert(all_sides(b@).contains_key(n));
                assert(!all_sides(a@).contains_key(n));
            }
            return false;
        }
        k = k + 1;
    }
    proof {
        assert forall|n: Seq<char>| #[trigger] a@.contains_key(n) implies b@.contains_key(n)
            && sides(b@[n]) == sides(a@[n]) by {
            let j = choose|j: int| 0 <= j < left@.len() && (#[trigger] left@[j]).0@ == n;
            assert(left@[j].0@ == n);
        }
        assert forall|n: Seq<char>| #[trigger] b@.contains_key(n) implies a@.contains_key(n) by {
            let j = choose|j: int| 0 <= j < right@.len() && (#[trigger] right@[j]).0@ == n;
            assert(right@[j].0@ == n);
        }
        assert(all_sides(a@).dom() =~= all_sides(b@).dom());
        assert(all_sides(a@) =~= all_sides(b@));
    }
    true
}

// ---- the new state ----

/// Where a file stands in a list of names; at its start, if it is not there.
pub open spec fn place_of(file: Option<Seq<char>>, names: Seq<Seq<char>>) -> usize {
    match file {
        Some(name) => if names.contains(name) {
            names.index_of(name) as usize
        } else {
            0
        },
        None => 0,
    }
}

/// The scroll positions of the files that there are; a new file is not
/// scrolled.
pub open spec fn kept_scrolls(
    positions: Map<Seq<char>, usize>,
    files: Set<Seq<char>>,
) -> Map<Seq<char>, usize> {
    Map::new(
        |name: Seq<char>| files.contains(name),
        |name: Seq<char>|
            if positions.contains_key(name) {
                positions[name]
            } else {
                0
            },
    )
}

/// The files that the filter lets pass.
pub open spec fn shown_files(
    a: AppView,
    files: Map<Seq<char>, (Seq<(usize, Seq<char>)>, Seq<(usize, Seq<char>)>)>,
) -> Map<Seq<char>, (Seq<(usize, Seq<char>)>, Seq<(usize, Seq<char>)>)> {
    files.restrict(Set::new(|path: Seq<char>| passes(a.file_filter, path)))
}

/// The state once a diff has been loaded anew. Nothing changes if that failed,
/// or if the diff is what it was. Otherwise the user stays at the file, if it
/// is still there, and is back at the diff.
pub open spec fn refreshed(a: AppView, loaded: Result<Loaded, Failure>) -> AppView {
    match loaded {
        Err(_) => a,
        Ok(data) => {
            let files = shown_files(a, data.files);
            if files == a.file_changes {
                a
            } else {
                let names = listing(files.dom());
                let now = AppView {
                    file_changes: files,
                    left_label: data.left,
                    right_label: data.right,
                    file_names: names,
                    scroll_positions: kept_scrolls(a.scroll_positions, files.dom()),
                    current_file_idx: place_of(current_file(a), names),
                    ..a
                };
                if a.app_mode == AppMode::Rebase {
                    AppView {
                        app_mode: AppMode::Diff,
                        rebase_changes: Map::empty(),
                        current_change_idx: 0,
                        ..now
                    }
                } else {
                    now
                }
            }
        },
    }
}

proof fn lemma_index_of(names: Seq<Seq<char>>, set: Set<Seq<char>>, i: int)
    requires
        is_listing(names, set),
        0 <= i < names.len(),
    ensures
        names.contains(names[i]),
        names.index_of(names[i]) == i,
{
    let j = names.index_of(names[i]);
    assert(names.contains(names[i]));
    crate::text::lemma_precedes_total(names[i], names[j]);
}

fn find_name(names: &Vec<String>, file: Option<&String>) -> (r: usize)
    requires
        exists|set: Set<Seq<char>>| is_listing(texts(names@), set),
    ensures
        r == place_of(
            match file {
                Some(name) => Some(name@),
                None => None,
            },
            texts(names@),
        ),
{
    let ghost set = choose|set: Set<Seq<char>>| is_listing(texts(names@), set);
    if let Some(name) = file {
        let mut i: usize = 0;
        while i < names.len()
            invariant
                i <= names@.len(),
                is_listing(texts(names@), set),
                file is Some && name == file->0,
                forall|j: int| 0 <= j < i ==> texts(names@)[j] != name@,
            decreases names@.len() - i,
        {
            if names[i] == *name {
                proof {
                    lemma_index_of(texts(names@), set, i as int);
                }
                return i;
            }
            i = i + 1;
        }
        assert(!texts(names@).contains(name@));
    }
    0
}

fn carry_scrolls(names: &Vec<String>, positions: &NameMap<usize>) -> (r: NameMap<usize>)
    ensures
        forall|set: Set<Seq<char>>| #[trigger]
            is_listing(texts(names@), set) ==> r@ == kept_scrolls(positions@, set),
{
    let mut r: NameMap<usize> = NameMap::new();
    let mut i: usize = 0;
    while i < names.len()
        invariant
            i <= names@.len(),
            forall|n: Seq<char>| #[trigger]
                r@.contains_key(n) <==> texts(names@).take(i as int).contains(n),
            forall|n: Seq<char>|
                r@.contains_key(n) ==> #[trigger] r@[n] == if positions@.contains_key(n) {
                    positions@[n]
                } else {
                    0
                },
        decreases names@.len() - i,
    {
        let position: usize = match positions.get(&names[i]) {
            Some(p) => *p,
            None => 0,
        };
        proof {
            let before = texts(names@).take(i as int);
            let after = texts(names@).take(i + 1);
            assert(after =~= before.push(names@[i as int]@));
            assert forall|n: Seq<char>| #[trigger]
                after.contains(n) <==> before.contains(n) || n == names@[i as int]@ by {
                if before.contains(n) {
                    let j = choose|j: int| 0 <= j < before.len() && before[j] == n;
                    assert(after[j] == n);
                }
                if n == names@[i as int]@ {
                    assert(after[i as int] == n);
                }
            }
        }
        r.insert(names[i].clone(), position);
        i = i + 1;
    }
    proof {
        assert(texts(names@).take(i as int) =~= texts(names@));
        assert forall|set: Set<Seq<char>>| #[trigger]
            is_listing(texts(names@), set) implies r@ == kept_scrolls(positions@, set) by {
            assert(r@.dom() =~= kept_scrolls(positions@, set).dom());
            assert(r@ =~= kept_scrolls(positions@, set));
        }
    }
    r
}

/// Takes in a diff that was loaded anew, from what git showed for the source
/// and the untracked files, and updates the state if changes are detected. A
/// diff whose lines cannot be counted is passed over.
pub fn refresh_if_changed(
    app: &mut App,
    output: &GitOutput,
    untracked: &Vec<(String, Option<String>)>,
)
    ensures
        final(app)@ == if can_load(output@) {
            refreshed(old(app)@, load(old(app)@.diff_source, output@, contents(untracked@)))
        } else {
            old(app)@
        },
        plainly_loaded(output@),
        final(app)@.file_changes != old(app)@.file_changes ==> is_listing(
            final(app)@.file_names,
            final(app)@.file_changes.dom(),
        ),
{
    let (mut files, left, right) = match load_changes(&app.diff_source, output, untracked) {
        Some(Ok(data)) => data,
        _ => {
            return ;
        },
    };
    let ghost all = files@;
    app.file_filter.apply(&mut files);
    proof {
        let chosen = Set::new(|path: Seq<char>| passes(app.file_filter@, path));
        assert(all_sides(all.restrict(chosen)).dom() =~= all_sides(all).restrict(chosen).dom());
        assert(all_sides(all.restrict(chosen)) =~= all_sides(all).restrict(chosen));
    }
    if same_changes(&files, &app.file_changes) {
        return ;
    }
    let names: Vec<String> = files.sorted_names();
    let idx: usize = find_name(&names, app.current_file());
    let scrolls: NameMap<usize> = carry_scrolls(&names, &app.scroll_positions);
    assert(all_sides(files@).dom() =~= files@.dom());
    app.file_changes = files;
    app.left_label = left;
    app.right_label = right;
    app.file_names = names;
    app.scroll_positions = scrolls;
    app.current_file_idx = idx;
    // The diff changed underneath the choice of changes
    if app.app_mode == AppMode::Rebase {
        app.app_mode = AppMode::Diff;
        app.rebase_changes.clear();
        app.current_change_idx = 0;
        assert(change_lists(app.rebase_changes@) =~= Map::<Seq<char>, Seq<Change>>::empty());
    }
}

} // verus!
