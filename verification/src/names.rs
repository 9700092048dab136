//! A map from names to values, in the order in which the names came.

use vstd::prelude::*;

use crate::text::{lemma_precedes_total, lemma_precedes_transitive, precedes, text_precedes, texts};

verus! {

/// Values by name. A name occurs once.
pub struct NameMap<V> {
    entries: Vec<(String, V)>,
}

/// No two entries have the same name.
pub open spec fn distinct_names<V>(items: Seq<(String, V)>) -> bool {
    forall|i: int, j: int|
        0 <= i < j < items.len() ==> (#[trigger] items[i]).0@ != (#[trigger] items[j]).0@
}

/// Some entry has this name.
pub open spec fn has_name<V>(items: Seq<(String, V)>, name: Seq<char>) -> bool {
    exists|i: int| 0 <= i < items.len() && (#[trigger] items[i]).0@ == name
}

/// The index of the entry with this name.
pub open spec fn index_of_name<V>(items: Seq<(String, V)>, name: Seq<char>) -> int {
    choose|i: int| 0 <= i < items.len() && (#[trigger] items[i]).0@ == name
}

/// The map that a list of entries stands for.
pub open spec fn map_of<V>(items: Seq<(String, V)>) -> Map<Seq<char>, V> {
    Map::new(
        |name: Seq<char>| has_name(items, name),
        |name: Seq<char>| items[index_of_name(items, name)].1,
    )
}

/// In a list without repeated names, every entry is in the map.
pub proof fn lemma_map_of<V>(items: Seq<(String, V)>)
    requires
        distinct_names(items),
    ensures
        forall|i: int|
            #![trigger items[i]]
            0 <= i < items.len() ==> map_of(items).contains_key(items[i].0@) && map_of(
                items,
            )[items[i].0@] == items[i].1,
{
    assert forall|i: int|
        #![trigger items[i]]
        0 <= i < items.len() implies map_of(items).contains_key(items[i].0@) && map_of(
        items,
    )[items[i].0@] == items[i].1 by {
        let k = index_of_name(items, items[i].0@);
        assert(items[k].0@ == items[i].0@);
        assert(!(k < i) && !(i < k));
    }
}

impl<V> View for NameMap<V> {
    type V = Map<Seq<char>, V>;

    closed spec fn view(&self) -> Map<Seq<char>, V> {
        map_of(self.entries@)
    }
}

impl<V> NameMap<V> {
    #[verifier::type_invariant]
    spec fn names_differ(self) -> bool {
        distinct_names(self.entries@)
    }

    /// The entries, in the order in which their names came.
    pub closed spec fn items(self) -> Seq<(String, V)> {
        self.entries@
    }

    /// A map without entries.
    pub fn new() -> (r: Self)
        ensures
            r@ == Map::<Seq<char>, V>::empty(),
            r.items() == Seq::<(String, V)>::empty(),
    {
        let r = NameMap { entries: Vec::new() };
        assert(map_of(r.entries@) =~= Map::<Seq<char>, V>::empty());
        r
    }

    /// The entries, in the order in which their names came.
    pub fn entries(&self) -> (r: &Vec<(String, V)>)
        ensures
            r@ == self.items(),
            distinct_names(r@),
            self@ == map_of(r@),
    {
        proof {
            use_type_invariant(self);
        }
        &self.entries
    }

    fn find(&self, name: &str) -> (r: Option<usize>)
        ensures
            match r {
                Some(i) => i < self.items().len() && self.items()[i as int].0@ == name@,
                None => !has_name(self.items(), name@),
            },
    {
        let wanted: String = name.to_string();
        let mut i: usize = 0;
        while i < self.entries.len()
            invariant
                i <= self.entries@.len(),
                wanted@ == name@,
                forall|j: int| 0 <= j < i ==> (#[trigger] self.entries@[j]).0@ != name@,
            decreases self.entries@.len() - i,
        {
            if self.entries[i].0 == wanted {
                return Some(i);
            }
            i = i + 1;
        }
        None
    }

    /// The value of a name.
    pub fn get(&self, name: &str) -> (r: Option<&V>)
        ensures
            match r {
                Some(v) => self@.contains_key(name@) && self@[name@] == *v,
                None => !self@.contains_key(name@),
            },
    {
        proof {
            use_type_invariant(self);
            lemma_map_of(self.entries@);
        }
        match self.find(name) {
            Some(i) => {
                let e: &(String, V) = &self.entries[i];
                Some(&e.1)
            },
            None => None,
        }
    }

    /// Whether a name has a value.
    pub fn contains_key(&self, name: &str) -> (r: bool)
        ensures
            r == self@.contains_key(name@),
    {
        match self.find(name) {
            Some(i) => {
                assert(self.entries@[i as int].0@ == name@);
                true
            },
            None => false,
        }
    }

    /// Gives a name a value, and returns the one that it had. A new name
    /// comes last; a known one keeps its place.
    pub fn insert(&mut self, name: String, value: V) -> (r: Option<V>)
        ensures
            final(self)@ == old(self)@.insert(name@, value),
            match r {
                Some(v) => old(self)@.contains_key(name@) && v == old(self)@[name@] && exists|i: int|
                    0 <= i < old(self).items().len() && (#[trigger] old(self).items()[i]).0@
                        == name@ && final(self).items() == old(self).items().update(
                        i,
                        (name, value),
                    ),
                None => !old(self)@.contains_key(name@) && final(self).items()
                    == old(self).items().push((name, value)),
            },
    {
        proof {
            use_type_invariant(&*self);
            lemma_map_of(self.entries@);
        }
        let ghost before = self.entries@;
        let place: Option<usize> = self.find(&name);
        let mut entries: Vec<(String, V)> = Vec::new();
        std::mem::swap(&mut entries, &mut self.entries);
        let r: Option<V> = match place {
            Some(i) => {
                let (_, old_value) = entries.remove(i);
                entries.insert(i, (name, value));
                assert(entries@ =~= before.update(i as int, (name, value)));
                assert(before[i as int].0@ == name@);
                Some(old_value)
            },
            None => {
                entries.push((name, value));
                None
            },
        };
        proof {
            assert forall|i: int, j: int| 0 <= i < j < entries@.len() implies (
            #[trigger] entries@[i]).0@ != (#[trigger] entries@[j]).0@ by {
                if i < before.len() && j < before.len() {
                    assert(before[i].0@ != before[j].0@);
                } else {
                    assert(before[i].0@ != name@);
                }
            }
            lemma_map_of(entries@);
            let a = map_of(entries@);
            let b = map_of(before).insert(name@, value);
            assert forall|n: Seq<char>| #[trigger] a.dom().contains(n) == b.dom().contains(n) && (
            a.dom().contains(n) ==> a[n] == b[n]) by {
                if has_name(before, n) {
                    let k = index_of_name(before, n);
                    assert(entries@[k].0@ == n);
                }
                if has_name(entries@, n) {
                    let k = index_of_name(entries@, n);
                    if k < before.len() {
                        assert(before[k].0@ == n);
                    }
                }
                if n == name@ {
                    match place {
                        Some(i) => {
                            assert(entries@[i as int].0@ == n);
                        },
                        None => {
                            assert(entries@[before.len() as int].0@ == n);
                        },
                    }
                }
            }
            assert(a.dom() =~= b.dom());
            assert(a =~= b);
        }
        self.entries = entries;
        r
    }

    /// Forgets all names.
    pub fn clear(&mut self)
        ensures
            final(self)@ == Map::<Seq<char>, V>::empty(),
            final(self).items() == Seq::<(String, V)>::empty(),
    {
        self.entries = Vec::new();
        assert(map_of(self.entries@) =~= Map::<Seq<char>, V>::empty());
    }

    /// Keeps the entries whose flag is set, and forgets the others.
    pub fn keep_flagged(&mut self, flags: &Vec<bool>)
        requires
            flags@.len() == old(self).items().len(),
        ensures
            final(self).items() == flagged(old(self).items(), flags@),
            forall|n: Seq<char>| #[trigger]
                final(self)@.contains_key(n) <==> old(self)@.contains_key(n)
                    && flags@[index_of_name(old(self).items(), n)],
            forall|n: Seq<char>|
                final(self)@.contains_key(n) ==> #[trigger] final(self)@[n] == old(self)@[n],
    {
        proof {
            use_type_invariant(&*self);
        }
        let ghost before = self.entries@;
        let mut entries: Vec<(String, V)> = Vec::new();
        std::mem::swap(&mut entries, &mut self.entries);
        let mut i: usize = entries.len();
        assert(before.skip(i as int) =~= Seq::<(String, V)>::empty());
        assert(flags@.skip(i as int) =~= Seq::<bool>::empty());
        assert(entries@ =~= before.take(i as int) + flagged(
            before.skip(i as int),
            flags@.skip(i as int),
        ));
        while i > 0
            invariant
                i <= before.len() == flags@.len(),
                entries@ == before.take(i as int) + flagged(
                    before.skip(i as int),
                    flags@.skip(i as int),
                ),
            decreases i,
        {
            let ghost rest = flagged(before.skip(i as int), flags@.skip(i as int));
            i = i - 1;
            proof {
                lemma_flagged_front(before.skip(i as int), flags@.skip(i as int));
                assert(before.skip(i as int).drop_first() =~= before.skip(i + 1));
                assert(flags@.skip(i as int).drop_first() =~= flags@.skip(i + 1));
                assert(before.take(i + 1) =~= before.take(i as int).push(before[i as int]));
            }
            if !flags[i] {
                entries.remove(i);
                assert(entries@ =~= before.take(i as int) + rest);
            } else {
                assert(entries@ =~= before.take(i as int) + (seq![before[i as int]] + rest));
            }
        }
        proof {
            assert(before.skip(0) =~= before);
            assert(flags@.skip(0) =~= flags@);
            assert(entries@ =~= flagged(before, flags@));
            lemma_flagged(before, flags@);
            lemma_map_of(before);
            lemma_map_of(entries@);
            assert forall|n: Seq<char>| #[trigger] map_of(entries@).contains_key(n) <==> map_of(
                before,
            ).contains_key(n) && flags@[index_of_name(before, n)] by {
                if has_name(entries@, n) {
                    let k = index_of_name(entries@, n);
                    assert(is_flagged(before, flags@, entries@[k]));
                    let m = choose|m: int|
                        0 <= m < before.len() && flags@[m] && #[trigger] before[m] == entries@[k];
                    assert(before[m].0@ == n);
                    let q = index_of_name(before, n);
                    assert(!(q < m) && !(m < q));
                }
                if has_name(before, n) && flags@[index_of_name(before, n)] {
                    let m = index_of_name(before, n);
                    assert(entries@.contains(before[m]));
                    let k = choose|k: int| 0 <= k < entries@.len() && entries@[k] == before[m];
                    assert(entries@[k].0@ == n);
                }
            }
            assert forall|n: Seq<char>| map_of(entries@).contains_key(n) implies #[trigger] map_of(
                entries@,
            )[n] == map_of(before)[n] by {
                let k = index_of_name(entries@, n);
                assert(is_flagged(before, flags@, entries@[k]));
                let m = choose|m: int|
                    0 <= m < before.len() && flags@[m] && #[trigger] before[m] == entries@[k];
                assert(before[m].0@ == n);
            }
        }
        self.entries = entries;
    }

    /// The names, in the order of strings.
    pub fn sorted_names(&self) -> (r: Vec<String>)
        ensures
            is_listing(texts(r@), self@.dom()),
            texts(r@) == listing(self@.dom()),
    {
        proof {
            use_type_invariant(self);
        }
        let mut r: Vec<String> = Vec::new();
        let mut i: usize = 0;
        while i < self.entries.len()
            invariant
                i <= self.entries@.len(),
                distinct_names(self.entries@),
                ascending(texts(r@)),
                forall|n: Seq<char>| #[trigger]
                    texts(r@).contains(n) <==> has_name(self.entries@.take(i as int), n),
            decreases self.entries@.len() - i,
        {
            let name: String = self.entries[i].0.clone();
            let ghost listed = texts(r@);
            let ghost done = self.entries@.take(i as int);
            let mut p: usize = r.len();
            while p > 0 && text_precedes(&name, &r[p - 1])
                invariant
                    p <= r@.len(),
                    forall|j: int| p <= j < r@.len() ==> precedes(name@, #[trigger] texts(r@)[j]),
                decreases p,
            {
                p = p - 1;
            }
            proof {
                assert(!listed.contains(name@)) by {
                    if has_name(done, name@) {
                        let k = index_of_name(done, name@);
                        assert(self.entries@[k].0@ != self.entries@[i as int].0@);
                    }
                }
                lemma_insert_ascending(listed, p as int, name@);
            }
            let ghost before = r@;
            r.insert(p, name);
            proof {
                assert(texts(r@) =~= listed.insert(p as int, name@));
                let next = self.entries@.take(i + 1);
                assert(next =~= done.push(self.entries@[i as int]));
                assert forall|n: Seq<char>| #[trigger]
                    texts(r@).contains(n) <==> has_name(next, n) by {
                    if has_name(next, n) {
                        let k = index_of_name(next, n);
                        if k < i {
                            assert(done[k].0@ == n);
                            assert(listed.contains(n));
                            let m = choose|m: int| 0 <= m < listed.len() && listed[m] == n;
                            if m < p {
                                assert(texts(r@)[m] == n);
                            } else {
                                assert(texts(r@)[m + 1] == n);
                            }
                        } else {
                            assert(texts(r@)[p as int] == n);
                        }
                    }
                    if texts(r@).contains(n) {
                        let m = choose|m: int| 0 <= m < texts(r@).len() && texts(r@)[m] == n;
                        if m == p {
                            assert(next[i as int].0@ == n);
                        } else {
                            if m < p {
                                assert(listed[m] == n);
                            } else {
                                assert(listed[m - 1] == n);
                            }
                            assert(listed.contains(n));
                            let k = index_of_name(done, n);
                            assert(next[k].0@ == n);
                        }
                    }
                }
            }
            i = i + 1;
        }
        proof {
            assert(self.entries@.take(i as int) =~= self.entries@);
            assert forall|n: Seq<char>| #[trigger]
                texts(r@).contains(n) <==> self@.dom().contains(n) by {}
            assert(is_listing(texts(r@), self@.dom()));
            listing_is_unique(texts(r@), listing(self@.dom()), self@.dom());
        }
        r
    }
}

/// The entries of a list whose flag is set.
pub open spec fn flagged<V>(items: Seq<(String, V)>, flags: Seq<bool>) -> Seq<(String, V)>
    decreases items.len(),
{
    if items.len() == 0 {
        Seq::empty()
    } else {
        let rest = flagged(items.drop_last(), flags.drop_last());
        if flags.last() {
            rest.push(items.last())
        } else {
            rest
        }
    }
}

/// `entry` stands in the list, with its flag set.
spec fn is_flagged<V>(items: Seq<(String, V)>, flags: Seq<bool>, entry: (String, V)) -> bool {
    exists|m: int| 0 <= m < items.len() && flags[m] && #[trigger] items[m] == entry
}

proof fn lemma_flagged_front<V>(items: Seq<(String, V)>, flags: Seq<bool>)
    requires
        items.len() == flags.len(),
        items.len() > 0,
    ensures
        flagged(items, flags) == (if flags[0] {
            seq![items[0]]
        } else {
            Seq::empty()
        }) + flagged(items.drop_first(), flags.drop_first()),
    decreases items.len(),
{
    if items.len() == 1 {
        assert(items.drop_last() =~= Seq::<(String, V)>::empty());
        assert(items.drop_first() =~= Seq::<(String, V)>::empty());
        assert(flagged(items.drop_last(), flags.drop_last()) =~= Seq::<(String, V)>::empty());
        assert(flagged(items, flags) =~= (if flags[0] {
            seq![items[0]]
        } else {
            Seq::empty()
        }) + Seq::<(String, V)>::empty());
    } else {
        lemma_flagged_front(items.drop_last(), flags.drop_last());
        assert(items.drop_last().drop_first() =~= items.drop_first().drop_last());
        assert(flags.drop_last().drop_first() =~= flags.drop_first().drop_last());
        assert(flagged(items, flags) =~= (if flags[0] {
            seq![items[0]]
        } else {
            Seq::empty()
        }) + flagged(items.drop_first(), flags.drop_first()));
    }
}

/// What is flagged comes from the list, and the list's names stay distinct.
proof fn lemma_flagged<V>(items: Seq<(String, V)>, flags: Seq<bool>)
    requires
        distinct_names(items),
        items.len() == flags.len(),
    ensures
        distinct_names(flagged(items, flags)),
        forall|k: int|
            0 <= k < flagged(items, flags).len() ==> is_flagged(
                items,
                flags,
                #[trigger] flagged(items, flags)[k],
            ),
        forall|m: int|
            #![trigger items[m]]
            0 <= m < items.len() && flags[m] ==> flagged(items, flags).contains(items[m]),
    decreases items.len(),
{
    if items.len() > 0 {
        let a = items.drop_last();
        let b = flags.drop_last();
        let r = flagged(a, b);
        let t = flagged(items, flags);
        assert(distinct_names(a)) by {
            assert forall|i: int, j: int| 0 <= i < j < a.len() implies (#[trigger] a[i]).0@ != (
            #[trigger] a[j]).0@ by {
                assert(items[i].0@ != items[j].0@);
            }
        }
        lemma_flagged(a, b);
        assert forall|k: int| 0 <= k < t.len() implies is_flagged(items, flags, #[trigger] t[k]) by {
            if k < r.len() {
                assert(is_flagged(a, b, r[k]));
                let m = choose|m: int| 0 <= m < a.len() && b[m] && #[trigger] a[m] == r[k];
                assert(items[m] == t[k]);
            } else {
                assert(items[items.len() - 1] == t[k]);
            }
        }
        assert forall|m: int| #![trigger items[m]] 0 <= m < items.len() && flags[m] implies t.contains(
            items[m],
        ) by {
            if m < a.len() {
                assert(a[m] == items[m]);
                assert(b[m]);
                let k = choose|k: int| 0 <= k < r.len() && r[k] == a[m];
                assert(t[k] == items[m]);
            } else {
                assert(t[t.len() - 1] == items[m]);
            }
        }
        assert forall|i: int, j: int| 0 <= i < j < t.len() implies (#[trigger] t[i]).0@ != (
        #[trigger] t[j]).0@ by {
            if j < r.len() {
                assert(r[i].0@ != r[j].0@);
            } else {
                assert(is_flagged(a, b, r[i]));
                let m = choose|m: int| 0 <= m < a.len() && b[m] && #[trigger] a[m] == r[i];
                assert(items[m].0@ != items[items.len() - 1].0@);
            }
        }
    }
}

/// Every name comes before the next.
pub open spec fn ascending(names: Seq<Seq<char>>) -> bool {
    forall|i: int, j: int|
        0 <= i < j < names.len() ==> precedes(#[trigger] names[i], #[trigger] names[j])
}

/// The names of a set, each once, in the order of strings.
pub open spec fn is_listing(names: Seq<Seq<char>>, set: Set<Seq<char>>) -> bool {
    &&& ascending(names)
    &&& forall|n: Seq<char>| #[trigger] names.contains(n) <==> set.contains(n)
}

proof fn lemma_insert_ascending(s: Seq<Seq<char>>, p: int, name: Seq<char>)
    requires
        ascending(s),
        !s.contains(name),
        0 <= p <= s.len(),
        forall|j: int| p <= j < s.len() ==> precedes(name, #[trigger] s[j]),
        p > 0 ==> !precedes(name, s[p - 1]),
    ensures
        ascending(s.insert(p, name)),
{
    let t = s.insert(p, name);
    if p > 0 {
        lemma_precedes_total(name, s[p - 1]);
        assert(s.contains(s[p - 1]));
    }
    assert forall|i: int, j: int| 0 <= i < j < t.len() implies precedes(
        #[trigger] t[i],
        #[trigger] t[j],
    ) by {
        if i == p {
            assert(t[j] == s[j - 1]);
        } else if j == p {
            assert(t[i] == s[i]);
            if i < p - 1 {
                assert(precedes(s[i], s[p - 1]));
                lemma_precedes_transitive(s[i], s[p - 1], name);
            }
        } else {
            let a = if i < p {
                i
            } else {
                i - 1
            };
            let b = if j < p {
                j
            } else {
                j - 1
            };
            assert(precedes(s[a], s[b]));
        }
    }
}

/// A set of names has only one listing.
pub proof fn listing_is_unique(a: Seq<Seq<char>>, b: Seq<Seq<char>>, set: Set<Seq<char>>)
    requires
        is_listing(a, set),
        is_listing(b, set),
    ensures
        a == b,
    decreases a.len(),
{
    if a.len() == 0 {
        if b.len() > 0 {
            assert(b.contains(b[0]));
            assert(a.contains(b[0]));
        }
        assert(a =~= b);
    } else {
        assert(a.contains(a.last()));
        assert(b.contains(a.last()));
        assert(b.contains(b.last()));
        assert(a.contains(b.last()));
        lemma_precedes_total(a.last(), b.last());
        let i = choose|i: int| 0 <= i < b.len() && b[i] == a.last();
        let j = choose|j: int| 0 <= j < a.len() && a[j] == b.last();
        assert(a.last() == b.last()) by {
            if i < b.len() - 1 {
                assert(precedes(b[i], b[b.len() - 1]));
            }
            if j < a.len() - 1 {
                assert(precedes(a[j], a[a.len() - 1]));
            }
        }
        let rest = set.remove(a.last());
        lemma_listing_drop_last(a, set);
        lemma_listing_drop_last(b, set);
        listing_is_unique(a.drop_last(), b.drop_last(), rest);
        assert(a =~= a.drop_last().push(a.last()));
        assert(b =~= b.drop_last().push(b.last()));
    }
}

proof fn lemma_listing_drop_last(names: Seq<Seq<char>>, set: Set<Seq<char>>)
    requires
        is_listing(names, set),
        names.len() > 0,
    ensures
        is_listing(names.drop_last(), set.remove(names.last())),
{
    let front = names.drop_last();
    let last = names.last();
    assert forall|n: Seq<char>| #[trigger] front.contains(n) <==> set.remove(last).contains(n) by {
        if front.contains(n) {
            let i = choose|i: int| 0 <= i < front.len() && front[i] == n;
            assert(names[i] == n);
            assert(names.contains(n));
            assert(precedes(names[i], names[names.len() - 1]));
            lemma_precedes_total(n, last);
        }
        if set.remove(last).contains(n) {
            assert(names.contains(n));
            let i = choose|i: int| 0 <= i < names.len() && names[i] == n;
            assert(front[i] == n);
        }
    }
}

/// The names of a set in the order of strings.
pub open spec fn listing(set: Set<Seq<char>>) -> Seq<Seq<char>> {
    choose|names: Seq<Seq<char>>| is_listing(names, set)
}

/// Where a name goes in a list: behind the last one that it does not precede.
spec fn slot(names: Seq<Seq<char>>, name: Seq<char>) -> int
    decreases names.len(),
{
    if names.len() == 0 || !precedes(name, names.last()) {
        names.len() as int
    } else {
        slot(names.drop_last(), name)
    }
}

proof fn lemma_slot(names: Seq<Seq<char>>, name: Seq<char>)
    ensures
        0 <= slot(names, name) <= names.len(),
        forall|j: int| slot(names, name) <= j < names.len() ==> precedes(name, #[trigger] names[j]),
        slot(names, name) > 0 ==> !precedes(name, names[slot(names, name) - 1]),
    decreases names.len(),
{
    if names.len() > 0 && precedes(name, names.last()) {
        let front = names.drop_last();
        lemma_slot(front, name);
        assert forall|j: int| slot(names, name) <= j < names.len() implies precedes(
            name,
            #[trigger] names[j],
        ) by {
            if j < front.len() {
                assert(front[j] == names[j]);
            }
        }
    }
}

/// Every finite set of names has a listing, as long as the set.
pub proof fn listing_exists(set: Set<Seq<char>>)
    requires
        set.finite(),
    ensures
        is_listing(listing(set), set),
        listing(set).len() == set.len(),
{
    let names = some_listing(set);
    listing_is_unique(names, listing(set), set);
}

proof fn some_listing(set: Set<Seq<char>>) -> (names: Seq<Seq<char>>)
    requires
        set.finite(),
    ensures
        is_listing(names, set),
        names.len() == set.len(),
    decreases set.len(),
{
    if set.len() == 0 {
        let names = Seq::<Seq<char>>::empty();
        assert(set =~= Set::empty());
        names
    } else {
        let x = set.choose();
        let rest = some_listing(set.remove(x));
        lemma_slot(rest, x);
        let p = slot(rest, x);
        let names = rest.insert(p, x);
        assert(!rest.contains(x));
        lemma_insert_ascending(rest, p, x);
        assert forall|n: Seq<char>| #[trigger] names.contains(n) <==> set.contains(n) by {
            if names.contains(n) {
                let i = choose|i: int| 0 <= i < names.len() && names[i] == n;
                if i < p {
                    assert(rest[i] == n);
                    assert(rest.contains(n));
                } else if i > p {
                    assert(rest[i - 1] == n);
                    assert(rest.contains(n));
                }
            }
            if set.contains(n) {
                if n == x {
                    assert(names[p] == n);
                } else {
                    assert(rest.contains(n));
                    let i = choose|i: int| 0 <= i < rest.len() && rest[i] == n;
                    if i < p {
                        assert(names[i] == n);
                    } else {
                        assert(names[i + 1] == n);
                    }
                }
            }
        }
        names
    }
}

} // verus!
