//! Sets of names that are listed in a fixed order.
use crate::text;
use vstd::prelude::*;

verus! {

/// Every name comes before the ones that follow it.
pub open spec fn ascending(list: Seq<Seq<char>>) -> bool {
    forall|i: int, j: int| 0 <= i < j < list.len() ==> text::before(#[trigger] list[i], #[trigger] list[j])
}

/// `list` holds exactly the names of `names`, in ascending order.
pub open spec fn lists(list: Seq<Seq<char>>, names: Set<Seq<char>>) -> bool {
    &&& ascending(list)
    &&& forall|n: Seq<char>| #[trigger] list.contains(n) <==> names.contains(n)
}

/// The names of a set in ascending order.
pub open spec fn listing(names: Set<Seq<char>>) -> Seq<Seq<char>> {
    choose|list: Seq<Seq<char>>| lists(list, names)
}

/// There is only one way to list a set of names in ascending order.
pub proof fn lemma_listing_unique(a: Seq<Seq<char>>, names: Set<Seq<char>>)
    requires
        lists(a, names),
    ensures
        listing(names) == a,
{
    let b = listing(names);
    lemma_same_list(a, b, names);
}

/// Where a name belongs in an ascending list that lacks it.
proof fn lemma_where(list: Seq<Seq<char>>, name: Seq<char>) -> (at: int)
    requires
        ascending(list),
        !list.contains(name),
    ensures
        0 <= at <= list.len(),
        forall|j: int| 0 <= j < at ==> text::before(#[trigger] list[j], name),
        at < list.len() ==> text::before(name, list[at]),
    decreases list.len(),
{
    if list.len() == 0 {
        0
    } else {
        let last = list.len() - 1;
        let less = list.drop_last();
        assert(list[last] != name) by {
            assert(list.contains(list[last]));
        }
        text::lemma_before_total(list[last], name);
        if text::before(list[last], name) {
            assert forall|j: int| 0 <= j < list.len() implies text::before(
                #[trigger] list[j],
                name,
            ) by {
                if j < last {
                    text::lemma_before_transitive(list[j], list[last], name);
                }
            }
            list.len() as int
        } else {
            assert forall|n: Seq<char>| less.contains(n) implies list.contains(n) by {
                let k = choose|k: int| 0 <= k < less.len() && less[k] == n;
                assert(list[k] == n);
            }
            let at = lemma_where(less, name);
            assert forall|j: int| 0 <= j < at implies text::before(#[trigger] list[j], name) by {
                assert(less[j] == list[j]);
            }
            if at < less.len() {
                assert(less[at] == list[at]);
            }
            at
        }
    }
}

/// Every finite set of names can be listed.
pub proof fn lemma_listing_exists(names: Set<Seq<char>>)
    requires
        names.finite(),
    ensures
        lists(listing(names), names),
    decreases names.len(),
{
    if names.len() == 0 {
        assert(names =~= Set::empty());
        assert(lists(Seq::<Seq<char>>::empty(), names));
    } else {
        let name = names.choose();
        let less = names.remove(name);
        lemma_listing_exists(less);
        let list = listing(less);
        assert(!list.contains(name));
        let at = lemma_where(list, name);
        NameSet::lemma_insert(list, at, name);
        assert(lists(list.insert(at, name), names));
    }
}

proof fn lemma_same_list(a: Seq<Seq<char>>, b: Seq<Seq<char>>, names: Set<Seq<char>>)
    requires
        lists(a, names),
        lists(b, names),
    ensures
        a == b,
    decreases a.len(),
{
    if a.len() == 0 {
        if b.len() > 0 {
            assert(b.contains(b[0]));
            assert(a.contains(b[0]));
        }
        assert(a =~= b);
    } else {
        assert(a.contains(a.last()));
        assert(b.contains(a.last()));
        assert(b.len() > 0);
        assert(b.contains(b.last()));
        assert(a.contains(b.last()));
        let k = choose|k: int| 0 <= k < b.len() && b[k] == a.last();
        let m = choose|m: int| 0 <= m < a.len() && a[m] == b.last();
        if a.last() != b.last() {
            assert(text::before(b[k], b.last()));
            assert(text::before(a[m], a.last()));
            text::lemma_before_transitive(a.last(), b.last(), a.last());
            text::lemma_before_irreflexive(a.last());
        }
        let rest = names.remove(a.last());
        lemma_without_last(a, names);
        lemma_without_last(b, names);
        lemma_same_list(a.drop_last(), b.drop_last(), rest);
        assert(a =~= a.drop_last().push(a.last()));
        assert(b =~= b.drop_last().push(b.last()));
    }
}

proof fn lemma_without_last(a: Seq<Seq<char>>, names: Set<Seq<char>>)
    requires
        lists(a, names),
        a.len() > 0,
    ensures
        lists(a.drop_last(), names.remove(a.last())),
{
    let d = a.drop_last();
    assert forall|n: Seq<char>| #[trigger] d.contains(n) <==> names.remove(a.last()).contains(n) by {
        if d.contains(n) {
            let i = choose|i: int| 0 <= i < d.len() && d[i] == n;
            assert(a[i] == n);
            assert(a.contains(n));
            assert(text::before(a[i], a[a.len() - 1]));
            text::lemma_before_irreflexive(n);
        }
        if names.remove(a.last()).contains(n) {
            assert(a.contains(n));
            let i = choose|i: int| 0 <= i < a.len() && a[i] == n;
            assert(d[i] == n);
        }
    }
}

/// A finite set of names.
#[derive(Clone, Debug)]
pub struct NameSet {
    items: Vec<String>,
}

impl View for NameSet {
    type V = Set<Seq<char>>;

    closed spec fn view(&self) -> Set<Seq<char>> {
        text::texts(self.items@).to_set()
    }
}

impl NameSet {
    /// The names are stored in ascending order.
    pub closed spec fn wf(&self) -> bool {
        ascending(text::texts(self.items@))
    }

    proof fn lemma_lists(&self)
        requires
            self.wf(),
        ensures
            lists(text::texts(self.items@), self@),
    {
    }

    /// The set without names.
    pub fn new() -> (r: NameSet)
        ensures
            r.wf(),
            r@ == Set::<Seq<char>>::empty(),
    {
        let r: NameSet = NameSet { items: Vec::new() };
        assert(r@ =~= Set::<Seq<char>>::empty());
        r
    }

    /// How many names there are.
    pub fn len(&self) -> (n: usize)
        requires
            self.wf(),
        ensures
            n == listing(self@).len(),
            n == 0 <==> self@ == Set::<Seq<char>>::empty(),
    {
        proof {
            self.lemma_lists();
            lemma_listing_unique(text::texts(self.items@), self@);
            if self.items@.len() == 0 {
                assert(self@ =~= Set::<Seq<char>>::empty());
            } else {
                assert(text::texts(self.items@).contains(text::texts(self.items@)[0]));
            }
        }
        self.items.len()
    }

    /// The names in ascending order.
    pub fn list(&self) -> (r: &Vec<String>)
        requires
            self.wf(),
        ensures
            text::texts(r@) == listing(self@),
            lists(text::texts(r@), self@),
    {
        proof {
            self.lemma_lists();
            lemma_listing_unique(text::texts(self.items@), self@);
        }
        &self.items
    }

    /// Whether a name is in the set.
    pub fn contains(&self, name: &String) -> (r: bool)
        ensures
            r == self@.contains(name@),
    {
        text::has_text(&self.items, name)
    }

    /// Adds a name.
    pub fn insert(&mut self, name: &String)
        requires
            old(self).wf(),
        ensures
            final(self).wf(),
            final(self)@ == old(self)@.insert(name@),
    {
        let ghost was = text::texts(self.items@);
        let n: usize = self.items.len();
        let mut i: usize = 0;
        while i < n
            invariant
                n == self.items.len(),
                i <= n,
                self.wf(),
                *self == *old(self),
                was == text::texts(self.items@),
                forall|j: int| 0 <= j < i ==> text::before(#[trigger] was[j], name@),
            decreases n - i,
        {
            assert(was[i as int] == self.items@[i as int]@);
            match text::place(&self.items[i], name) {
                text::Place::Before => {},
                text::Place::Same => {
                    assert(was.contains(name@));
                    assert(self@ =~= self@.insert(name@));
                    return;
                },
                text::Place::After => {
                    let ghost at = i as int;
                    self.items.insert(i, name.clone());
                    proof {
                        assert(text::texts(self.items@) =~= was.insert(at, name@));
                        Self::lemma_insert(was, at, name@);
                        assert(self@ =~= old(self)@.insert(name@));
                    }
                    return;
                },
            }
            i = i + 1;
        }
        self.items.push(name.clone());
        proof {
            assert(text::texts(self.items@) =~= was.insert(n as int, name@));
            Self::lemma_insert(was, n as int, name@);
            assert(self@ =~= old(self)@.insert(name@));
        }
    }

    /// A name put in its place leaves a list ascending.
    pub proof fn lemma_insert(was: Seq<Seq<char>>, at: int, name: Seq<char>)
        requires
            ascending(was),
            0 <= at <= was.len(),
            forall|j: int| 0 <= j < at ==> text::before(#[trigger] was[j], name),
            at < was.len() ==> text::before(name, was[at]),
        ensures
            ascending(was.insert(at, name)),
            forall|n: Seq<char>| #[trigger]
                was.insert(at, name).contains(n) <==> was.contains(n) || n == name,
    {
        let now = was.insert(at, name);
        assert forall|i: int, j: int| 0 <= i < j < now.len() implies text::before(
            #[trigger] now[i],
            #[trigger] now[j],
        ) by {
            if i == at {
                if j - 1 > at {
                    assert(text::before(was[at], was[j - 1]));
                    text::lemma_before_transitive(name, was[at], was[j - 1]);
                }
            } else if i > at {
                assert(text::before(was[i - 1], was[j - 1]));
            } else if j > at {
                assert(text::before(was[i], was[j - 1]));
            }
        }
        assert forall|n: Seq<char>| #[trigger] now.contains(n) <==> was.contains(n) || n == name by {
            if was.contains(n) {
                let k = choose|k: int| 0 <= k < was.len() && was[k] == n;
                if k < at {
                    assert(now[k] == n);
                } else {
                    assert(now[k + 1] == n);
                }
            }
            if n == name {
                assert(now[at] == n);
            }
            if now.contains(n) {
                let k = choose|k: int| 0 <= k < now.len() && now[k] == n;
                if k < at {
                    assert(was[k] == n);
                } else if k > at {
                    assert(was[k - 1] == n);
                }
            }
        }
    }

    /// Adds every name of another set.
    pub fn extend(&mut self, other: &NameSet)
        requires
            old(self).wf(),
        ensures
            final(self).wf(),
            final(self)@ == old(self)@.union(other@),
    {
        self.add_all(&other.items);
        assert(self@ =~= old(self)@.union(other@));
    }

    /// Adds every name of a list.
    pub fn add_all(&mut self, names: &Vec<String>)
        requires
            old(self).wf(),
        ensures
            final(self).wf(),
            final(self)@ == old(self)@.union(text::texts(names@).to_set()),
    {
        let n: usize = names.len();
        let mut i: usize = 0;
        let ghost all = text::texts(names@);
        assert(self@ =~= old(self)@.union(all.take(0).to_set()));
        while i < n
            invariant
                n == names.len(),
                i <= n,
                all == text::texts(names@),
                self.wf(),
                self@ == old(self)@.union(all.take(i as int).to_set()),
            decreases n - i,
        {
            self.insert(&names[i]);
            proof {
                let name = names@[i as int]@;
                assert(all.take(i + 1) =~= all.take(i as int).push(name));
                all.take(i as int).lemma_push_to_set_commute(name);
                assert(self@ =~= old(self)@.union(all.take(i + 1).to_set()));
            }
            i = i + 1;
        }
        assert(all.take(n as int) =~= all);
    }

    /// The names of this set that another one lacks.
    pub fn difference(&self, other: &NameSet) -> (r: NameSet)
        requires
            self.wf(),
        ensures
            r.wf(),
            r@ == self@.difference(other@),
    {
        let mut out: NameSet = NameSet::new();
        let n: usize = self.items.len();
        let mut i: usize = 0;
        let ghost all = text::texts(self.items@);
        assert(out@ =~= all.take(0).to_set().difference(other@));
        while i < n
            invariant
                n == self.items.len(),
                i <= n,
                all == text::texts(self.items@),
                out.wf(),
                out@ == all.take(i as int).to_set().difference(other@),
            decreases n - i,
        {
            proof {
                let name = self.items@[i as int]@;
                assert(all.take(i + 1) =~= all.take(i as int).push(name));
                all.take(i as int).lemma_push_to_set_commute(name);
            }
            if !other.contains(&self.items[i]) {
                out.insert(&self.items[i]);
            }
            assert(out@ =~= all.take(i + 1).to_set().difference(other@));
            i = i + 1;
        }
        assert(all.take(n as int) =~= all);
        out
    }

    /// The names of both sets.
    pub fn union(&self, other: &NameSet) -> (r: NameSet)
        ensures
            r.wf(),
            r@ == self@.union(other@),
    {
        let mut out: NameSet = NameSet::new();
        out.add_all(&self.items);
        out.add_all(&other.items);
        assert(out@ =~= self@.union(other@));
        out
    }
}

// ----- sorting -----

/// `a` is `b` or comes before it.
pub open spec fn at_most(a: Seq<char>, b: Seq<char>) -> bool {
    a == b || text::before(a, b)
}

/// A list in ascending order, with every repetition kept.
pub open spec fn sorted(list: Seq<Seq<char>>) -> Seq<Seq<char>> {
    list.sort_by(|a: Seq<char>, b: Seq<char>| at_most(a, b))
}

proof fn lemma_at_most_total()
    ensures
        vstd::relations::total_ordering(|a: Seq<char>, b: Seq<char>| at_most(a, b)),
{
    let leq = |a: Seq<char>, b: Seq<char>| at_most(a, b);
    assert forall|a: Seq<char>, b: Seq<char>| #[trigger] leq(a, b) && #[trigger] leq(b, a) implies a
        == b by {
        if a != b {
            text::lemma_before_transitive(a, b, a);
            text::lemma_before_irreflexive(a);
        }
    }
    assert forall|a: Seq<char>, b: Seq<char>, c: Seq<char>| #[trigger]
        leq(a, b) && #[trigger] leq(b, c) implies leq(a, c) by {
        if a != b && b != c {
            text::lemma_before_transitive(a, b, c);
        }
    }
    assert forall|a: Seq<char>, b: Seq<char>| #[trigger] leq(a, b) || leq(b, a) by {
        text::lemma_before_total(a, b);
    }
}

/// A list that is in order and holds what another one holds is that one, sorted.
proof fn lemma_sorted_is(list: Seq<Seq<char>>, out: Seq<Seq<char>>)
    requires
        forall|i: int, j: int|
            0 <= i < j < out.len() ==> at_most(#[trigger] out[i], #[trigger] out[j]),
        out.to_multiset() == list.to_multiset(),
    ensures
        out == sorted(list),
{
    let leq = |a: Seq<char>, b: Seq<char>| at_most(a, b);
    lemma_at_most_total();
    list.lemma_sort_by_ensures(leq);
    assert(vstd::relations::sorted_by(out, leq));
    vstd::seq_lib::lemma_sorted_unique(out, sorted(list), leq);
}

/// Sorting keeps every name as often as it stood there, and leaves each before or
/// equal to those behind it.
pub proof fn law_sorting_keeps_all(list: Seq<Seq<char>>)
    ensures
        sorted(list).to_multiset() == list.to_multiset(),
        forall|i: int, j: int|
            0 <= i < j < sorted(list).len() ==> #[trigger] sorted(list)[i] == #[trigger] sorted(
                list,
            )[j] || text::before(sorted(list)[i], sorted(list)[j]),
{
    let leq = |a: Seq<char>, b: Seq<char>| at_most(a, b);
    lemma_at_most_total();
    list.lemma_sort_by_ensures(leq);
    assert forall|i: int, j: int| 0 <= i < j < sorted(list).len() implies #[trigger] sorted(list)[i]
        == #[trigger] sorted(list)[j] || text::before(sorted(list)[i], sorted(list)[j]) by {
        assert(leq(sorted(list)[i], sorted(list)[j]));
    }
}

/// Lists that hold the same names as often are sorted alike.
pub proof fn law_sorting_forgets_the_order(a: Seq<Seq<char>>, b: Seq<Seq<char>>)
    requires
        a.to_multiset() == b.to_multiset(),
    ensures
        sorted(a) == sorted(b),
{
    law_sorting_keeps_all(a);
    lemma_sorted_is(b, sorted(a));
}

/// Sorts a list of names.
pub fn sort_names(list: &Vec<String>) -> (r: Vec<String>)
    ensures
        text::texts(r@) == sorted(text::texts(list@)),
{
    let mut out: Vec<String> = Vec::new();
    let n: usize = list.len();
    let mut i: usize = 0;
    let ghost all = text::texts(list@);
    assert(text::texts(out@) =~= all.take(0));
    while i < n
        invariant
            n == list.len(),
            i <= n,
            all == text::texts(list@),
            forall|a: int, b: int|
                0 <= a < b < out@.len() ==> at_most(
                    #[trigger] text::texts(out@)[a],
                    #[trigger] text::texts(out@)[b],
                ),
            text::texts(out@).to_multiset() == all.take(i as int).to_multiset(),
        decreases n - i,
    {
        insert_sorted(&mut out, &list[i]);
        proof {
            assert(all.take(i + 1) =~= all.take(i as int).push(list@[i as int]@));
            vstd::seq_lib::to_multiset_build(all.take(i as int), list@[i as int]@);
        }
        i = i + 1;
    }
    proof {
        assert(all.take(n as int) =~= all);
        lemma_sorted_is(all, text::texts(out@));
    }
    out
}

fn insert_sorted(out: &mut Vec<String>, name: &String)
    requires
        forall|a: int, b: int|
            0 <= a < b < old(out)@.len() ==> at_most(
                #[trigger] text::texts(old(out)@)[a],
                #[trigger] text::texts(old(out)@)[b],
            ),
    ensures
        forall|a: int, b: int|
            0 <= a < b < final(out)@.len() ==> at_most(
                #[trigger] text::texts(final(out)@)[a],
                #[trigger] text::texts(final(out)@)[b],
            ),
        text::texts(final(out)@).to_multiset() == text::texts(old(out)@).to_multiset().insert(
            name@,
        ),
{
    let ghost was = text::texts(out@);
    let n: usize = out.len();
    let mut i: usize = 0;
    let mut found: bool = false;
    while i < n && !found
        invariant
            n == out.len(),
            i <= n,
            was == text::texts(out@),
            *out == *old(out),
            forall|a: int| 0 <= a < i ==> at_most(#[trigger] was[a], name@),
            found ==> i < n && text::before(name@, was[i as int]),
        decreases n - i + (if found { 0int } else { 1int }),
    {
        assert(was[i as int] == out@[i as int]@);
        match text::place(&out[i], name) {
            text::Place::After => {
                found = true;
            },
            _ => {
                i = i + 1;
            },
        }
    }
    out.insert(i, name.clone());
    proof {
        let at = i as int;
        let now = text::texts(out@);
        assert(now =~= was.insert(at, name@));
        vstd::seq_lib::to_multiset_insert(was, at, name@);
        assert forall|a: int, b: int| 0 <= a < b < now.len() implies at_most(
            #[trigger] now[a],
            #[trigger] now[b],
        ) by {
            if a == at {
                if b - 1 > at {
                    assert(at_most(was[at], was[b - 1]));
                    if was[at] != was[b - 1] {
                        text::lemma_before_transitive(name@, was[at], was[b - 1]);
                    }
                }
            } else if a > at {
                assert(at_most(was[a - 1], was[b - 1]));
            } else if b > at {
                assert(at_most(was[a], was[b - 1]));
            }
        }
    }
}

/// In an ascending list each name comes before those behind it, and none comes
/// twice.
pub proof fn law_ascending_lists_are_in_order(list: Seq<Seq<char>>, i: int, j: int)
    requires
        ascending(list),
        0 <= i < list.len(),
        0 <= j < list.len(),
    ensures
        i < j <==> text::before(list[i], list[j]),
        i == j <==> list[i] == list[j],
{
    text::lemma_before_irreflexive(list[i]);
    if j < i {
        assert(text::before(list[j], list[i]));
        if text::before(list[i], list[j]) {
            text::lemma_before_transitive(list[i], list[j], list[i]);
        }
    }
}

/// A finite set is listed in one way: its names and no others, in ascending order.
pub proof fn law_listing_holds_the_set(names: Set<Seq<char>>, list: Seq<Seq<char>>, n: Seq<char>)
    requires
        names.finite(),
    ensures
        ascending(listing(names)),
        listing(names).contains(n) <==> names.contains(n),
        ascending(list) && (forall|m: Seq<char>| #[trigger] list.contains(m) <==> names.contains(m))
            ==> list == listing(names),
{
    lemma_listing_exists(names);
    if ascending(list) && (forall|m: Seq<char>| #[trigger]
        list.contains(m) <==> names.contains(m)) {
        lemma_listing_unique(list, names);
    }
}

} // verus!
