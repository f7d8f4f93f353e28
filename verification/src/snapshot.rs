//! Snapshots of a working tree and the difference between two of them.
use crate::names::{self, NameSet};
use crate::text;
use vstd::prelude::*;
use vstd::string::*;

verus! {

#[derive(Debug)]
struct Entry {
    path: String,
    signature: String,
}

/// The files of a tree: each path with a signature of everything that counts of
/// the file (content, kind, executable bit, link target).
#[derive(Debug)]
pub struct Manifest {
    entries: Vec<Entry>,
}

spec fn paths(entries: Seq<Entry>) -> Seq<Seq<char>> {
    entries.map_values(|e: Entry| e.path@)
}

spec fn place_of(entries: Seq<Entry>, path: Seq<char>) -> int {
    choose|i: int| 0 <= i < entries.len() && #[trigger] entries[i].path@ == path
}

spec fn files(entries: Seq<Entry>) -> Map<Seq<char>, Seq<char>> {
    Map::new(
        |p: Seq<char>| paths(entries).contains(p),
        |p: Seq<char>| entries[place_of(entries, p)].signature@,
    )
}

impl View for Manifest {
    type V = Map<Seq<char>, Seq<char>>;

    closed spec fn view(&self) -> Map<Seq<char>, Seq<char>> {
        files(self.entries@)
    }
}

impl Manifest {
    /// The paths are stored in ascending order.
    pub closed spec fn wf(&self) -> bool {
        names::ascending(paths(self.entries@))
    }

    /// Each entry is what the manifest says of its path.
    proof fn lemma_entry(&self, i: int)
        requires
            self.wf(),
            0 <= i < self.entries@.len(),
        ensures
            self@.dom().contains(self.entries@[i].path@),
            self@[self.entries@[i].path@] == self.entries@[i].signature@,
    {
        let p = self.entries@[i].path@;
        assert(paths(self.entries@)[i] == p);
        assert(paths(self.entries@).contains(p));
        let k = place_of(self.entries@, p);
        assert(paths(self.entries@)[k] == p);
        text::lemma_before_irreflexive(p);
    }

    proof fn lemma_paths(&self)
        requires
            self.wf(),
        ensures
            names::lists(paths(self.entries@), self@.dom()),
    {
    }

    proof fn lemma_finite(&self)
        requires
            self.wf(),
        ensures
            self@.dom().finite(),
    {
        let all = paths(self.entries@);
        assert(self@.dom() =~= all.to_set());
        vstd::seq_lib::seq_to_set_is_finite(all);
    }

    /// The tree without files.
    pub fn new() -> (r: Manifest)
        ensures
            r.wf(),
            r@ == Map::<Seq<char>, Seq<char>>::empty(),
    {
        let r: Manifest = Manifest { entries: Vec::new() };
        assert(r@ =~= Map::<Seq<char>, Seq<char>>::empty());
        r
    }

    /// How many files there are.
    pub fn len(&self) -> (n: usize)
        requires
            self.wf(),
        ensures
            n == names::listing(self@.dom()).len(),
    {
        proof {
            self.lemma_paths();
            names::lemma_listing_unique(paths(self.entries@), self@.dom());
        }
        self.entries.len()
    }

    /// The signature of a file.
    pub fn get(&self, path: &String) -> (r: Option<&String>)
        requires
            self.wf(),
        ensures
            r is Some <==> self@.dom().contains(path@),
            r matches Some(s) ==> s@ == self@[path@],
    {
        let n: usize = self.entries.len();
        let mut i: usize = 0;
        while i < n
            invariant
                n == self.entries.len(),
                i <= n,
                self.wf(),
                forall|k: int| 0 <= k < i ==> #[trigger] paths(self.entries@)[k] != path@,
            decreases n - i,
        {
            assert(paths(self.entries@)[i as int] == self.entries@[i as int].path@);
            if self.entries[i].path == *path {
                proof {
                    self.lemma_entry(i as int);
                }
                return Some(&self.entries[i].signature);
            }
            i = i + 1;
        }
        None
    }

    /// Enters a file, in place of what was known under its path.
    pub fn insert(&mut self, path: &String, signature: &String)
        requires
            old(self).wf(),
        ensures
            final(self).wf(),
            final(self)@ == old(self)@.insert(path@, signature@),
    {
        let n: usize = self.entries.len();
        let ghost was = paths(self.entries@);
        let mut i: usize = 0;
        while i < n
            invariant
                n == self.entries.len(),
                i <= n,
                *self == *old(self),
                self.wf(),
                was == paths(self.entries@),
                forall|k: int| 0 <= k < i ==> text::before(#[trigger] was[k], path@),
            decreases n - i,
        {
            assert(was[i as int] == self.entries@[i as int].path@);
            match text::place(&self.entries[i].path, path) {
                text::Place::Before => {},
                text::Place::Same => {
                    self.entries[i] = Entry { path: path.clone(), signature: signature.clone() };
                    proof {
                        assert(paths(self.entries@) =~= was);
                        self.lemma_updated(*old(self), i as int, path@, signature@);
                    }
                    return;
                },
                text::Place::After => {
                    let ghost at = i as int;
                    self.entries.insert(
                        i,
                        Entry { path: path.clone(), signature: signature.clone() },
                    );
                    proof {
                        assert(paths(self.entries@) =~= was.insert(at, path@));
                        names::NameSet::lemma_insert(was, at, path@);
                        self.lemma_inserted(*old(self), at, path@, signature@);
                    }
                    return;
                },
            }
            i = i + 1;
        }
        let ghost at = n as int;
        self.entries.push(Entry { path: path.clone(), signature: signature.clone() });
        proof {
            assert(paths(self.entries@) =~= was.insert(at, path@));
            assert(self.entries@ =~= old(self).entries@.insert(at, self.entries@.last()));
            names::NameSet::lemma_insert(was, at, path@);
            self.lemma_inserted(*old(self), at, path@, signature@);
        }
    }

    proof fn lemma_updated(&self, was: Manifest, at: int, path: Seq<char>, signature: Seq<char>)
        requires
            self.wf(),
            was.wf(),
            0 <= at < was.entries@.len(),
            self.entries@ == was.entries@.update(at, self.entries@[at]),
            was.entries@[at].path@ == path,
            self.entries@[at].path@ == path,
            self.entries@[at].signature@ == signature,
        ensures
            self@ == was@.insert(path, signature),
    {
        assert(paths(self.entries@) =~= paths(was.entries@));
        was.lemma_entry(at);
        self.lemma_entry(at);
        assert forall|p: Seq<char>| self@.dom().contains(p) implies #[trigger] self@[p]
            == was@.insert(path, signature)[p] by {
            let k = choose|k: int| 0 <= k < paths(self.entries@).len() && paths(self.entries@)[k]
                == p;
            self.lemma_entry(k);
            was.lemma_entry(k);
        }
        assert(self@ =~= was@.insert(path, signature));
    }

    proof fn lemma_inserted(&self, was: Manifest, at: int, path: Seq<char>, signature: Seq<char>)
        requires
            self.wf(),
            was.wf(),
            0 <= at <= was.entries@.len(),
            self.entries@ == was.entries@.insert(at, self.entries@[at]),
            paths(self.entries@) == paths(was.entries@).insert(at, path),
            self.entries@[at].signature@ == signature,
            forall|n: Seq<char>| #[trigger]
                paths(self.entries@).contains(n) <==> paths(was.entries@).contains(n) || n == path,
        ensures
            self@ == was@.insert(path, signature),
    {
        assert(paths(self.entries@)[at] == self.entries@[at].path@);
        self.lemma_entry(at);
        assert forall|p: Seq<char>| self@.dom().contains(p) implies #[trigger] self@[p]
            == was@.insert(path, signature)[p] by {
            let k = choose|k: int| 0 <= k < paths(self.entries@).len() && paths(self.entries@)[k]
                == p;
            assert(paths(self.entries@)[k] == self.entries@[k].path@);
            self.lemma_entry(k);
            if k < at {
                was.lemma_entry(k);
                if p == path {
                    text::lemma_before_irreflexive(p);
                }
            } else if k > at {
                was.lemma_entry(k - 1);
                if p == path {
                    assert(text::before(paths(self.entries@)[at], paths(self.entries@)[k]));
                    text::lemma_before_irreflexive(p);
                }
            }
        }
        assert(self@ =~= was@.insert(path, signature));
    }
}

// ----- differences -----

/// How a tree differs from an earlier one.
#[derive(Debug)]
pub struct Diff {
    pub added: Vec<String>,
    pub modified: Vec<String>,
    pub deleted: Vec<String>,
}

/// How a tree differs from an earlier one.
pub struct DiffModel {
    pub added: Seq<Seq<char>>,
    pub modified: Seq<Seq<char>>,
    pub deleted: Seq<Seq<char>>,
}

impl View for Diff {
    type V = DiffModel;

    open spec fn view(&self) -> DiffModel {
        DiffModel {
            added: text::texts(self.added@),
            modified: text::texts(self.modified@),
            deleted: text::texts(self.deleted@),
        }
    }
}

impl DiffModel {
    /// All changed paths: the added ones, then the modified, then the deleted.
    pub open spec fn all(self) -> Seq<Seq<char>> {
        self.added + self.modified + self.deleted
    }
}

/// The files of a tree, path by path.
pub type Files = Map<Seq<char>, Seq<char>>;

/// The paths that stand in both trees with different signatures.
pub open spec fn altered(base: Files, head: Files) -> Set<Seq<char>> {
    base.dom().intersect(head.dom()).filter(|p: Seq<char>| base[p] != head[p])
}

/// The difference of two trees, each part in ascending order.
pub open spec fn difference(base: Files, head: Files) -> DiffModel {
    DiffModel {
        added: names::listing(head.dom().difference(base.dom())),
        modified: names::listing(altered(base, head)),
        deleted: names::listing(base.dom().difference(head.dom())),
    }
}

/// The paths of `a` that `b` lacks.
fn only_in(a: &Manifest, b: &Manifest) -> (r: NameSet)
    requires
        a.wf(),
        b.wf(),
    ensures
        r.wf(),
        r@ == a@.dom().difference(b@.dom()),
{
    let mut out: NameSet = NameSet::new();
    let n: usize = a.entries.len();
    let mut i: usize = 0;
    let ghost all = paths(a.entries@);
    assert(out@ =~= all.take(0).to_set().difference(b@.dom()));
    while i < n
        invariant
            n == a.entries.len(),
            i <= n,
            b.wf(),
            all == paths(a.entries@),
            out.wf(),
            out@ == all.take(i as int).to_set().difference(b@.dom()),
        decreases n - i,
    {
        proof {
            let name = a.entries@[i as int].path@;
            assert(all.take(i + 1) =~= all.take(i as int).push(name));
            all.take(i as int).lemma_push_to_set_commute(name);
        }
        if b.get(&a.entries[i].path).is_none() {
            out.insert(&a.entries[i].path);
        }
        assert(out@ =~= all.take(i + 1).to_set().difference(b@.dom()));
        i = i + 1;
    }
    assert(all.take(n as int) =~= all);
    assert(all.to_set() =~= a@.dom());
    out
}

/// The paths that stand in both trees with different signatures.
fn altered_in(base: &Manifest, head: &Manifest) -> (r: NameSet)
    requires
        base.wf(),
        head.wf(),
    ensures
        r.wf(),
        r@ == altered(base@, head@),
{
    let mut out: NameSet = NameSet::new();
    let n: usize = base.entries.len();
    let mut i: usize = 0;
    let ghost all = paths(base.entries@);
    assert(out@ =~= altered(base@, head@).intersect(all.take(0).to_set()));
    while i < n
        invariant
            n == base.entries.len(),
            i <= n,
            base.wf(),
            head.wf(),
            all == paths(base.entries@),
            out.wf(),
            out@ == altered(base@, head@).intersect(all.take(i as int).to_set()),
        decreases n - i,
    {
        proof {
            let name = base.entries@[i as int].path@;
            assert(all.take(i + 1) =~= all.take(i as int).push(name));
            all.take(i as int).lemma_push_to_set_commute(name);
            base.lemma_entry(i as int);
        }
        if let Some(signature) = head.get(&base.entries[i].path) {
            if *signature != base.entries[i].signature {
                out.insert(&base.entries[i].path);
            }
        }
        assert(out@ =~= altered(base@, head@).intersect(all.take(i + 1).to_set()));
        i = i + 1;
    }
    assert(all.take(n as int) =~= all);
    assert(all.to_set() =~= base@.dom());
    assert(out@ =~= altered(base@, head@));
    out
}

/// The difference of two trees.
pub fn diff(base: &Manifest, head: &Manifest) -> (r: Diff)
    requires
        base.wf(),
        head.wf(),
    ensures
        r@ == difference(base@, head@),
{
    let added: NameSet = only_in(head, base);
    let modified: NameSet = altered_in(base, head);
    let deleted: NameSet = only_in(base, head);
    Diff {
        added: text::copy_texts(added.list()),
        modified: text::copy_texts(modified.list()),
        deleted: text::copy_texts(deleted.list()),
    }
}

impl Diff {
    /// All changed paths: the added ones, then the modified, then the deleted.
    pub fn changed(&self) -> (r: Vec<String>)
        ensures
            text::texts(r@) == self@.all(),
    {
        let mut out: Vec<String> = text::copy_texts(&self.added);
        let mut more: Vec<String> = text::copy_texts(&self.modified);
        let mut gone: Vec<String> = text::copy_texts(&self.deleted);
        out.append(&mut more);
        out.append(&mut gone);
        assert(text::texts(out@) =~= self@.all());
        out
    }

    /// Whether nothing changed.
    pub fn is_empty(&self) -> (r: bool)
        ensures
            r == (self@.all().len() == 0),
    {
        self.added.is_empty() && self.modified.is_empty() && self.deleted.is_empty()
    }
}

// ----- the text behind a digest -----

/// The text of a list of paths with their signatures: path, NUL, signature,
/// newline.
pub open spec fn lines(list: Seq<Seq<char>>, tree: Files) -> Seq<char>
    decreases list.len(),
{
    if list.len() == 0 {
        Seq::empty()
    } else {
        lines(list.drop_last(), tree) + list.last() + seq!['\0'] + tree[list.last()] + seq!['\n']
    }
}

/// The text that a digest of a tree is taken of: every file in ascending order
/// of its path, with its full signature.
pub open spec fn tree_text(tree: Files) -> Seq<char> {
    lines(names::listing(tree.dom()), tree)
}

/// The text that a digest of a tree is taken of.
pub fn manifest_text(m: &Manifest) -> (r: String)
    requires
        m.wf(),
    ensures
        r@ == tree_text(m@),
{
    let mut out: String = String::new();
    let n: usize = m.entries.len();
    let mut i: usize = 0;
    let ghost all = paths(m.entries@);
    while i < n
        invariant
            n == m.entries.len(),
            i <= n,
            m.wf(),
            all == paths(m.entries@),
            out@ == lines(all.take(i as int), m@),
        decreases n - i,
    {
        out.append(m.entries[i].path.as_str());
        out.push('\0');
        out.append(m.entries[i].signature.as_str());
        out.push('\n');
        proof {
            m.lemma_entry(i as int);
            assert(all.take(i + 1).drop_last() =~= all.take(i as int));
            assert(all.take(i + 1).last() == m.entries@[i as int].path@);
            assert(out@ =~= lines(all.take(i + 1), m@));
        }
        i = i + 1;
    }
    proof {
        assert(all.take(n as int) =~= all);
        m.lemma_paths();
        names::lemma_listing_unique(all, m@.dom());
    }
    out
}

/// Paths hold no NUL and signatures no newline.
pub open spec fn separable(tree: Files) -> bool {
    forall|p: Seq<char>| #[trigger]
        tree.dom().contains(p) ==> !p.contains('\0') && !tree[p].contains('\n')
}

proof fn lemma_split(a: Seq<char>, x: Seq<char>, b: Seq<char>, y: Seq<char>, c: char)
    requires
        !a.contains(c),
        !b.contains(c),
        a + seq![c] + x == b + seq![c] + y,
    ensures
        a == b,
        x == y,
{
    let left = a + seq![c] + x;
    let right = b + seq![c] + y;
    assert(left[a.len() as int] == c);
    assert(right[b.len() as int] == c);
    if a.len() < b.len() {
        assert(right[a.len() as int] == b[a.len() as int]);
        assert(b.contains(c));
    }
    if b.len() < a.len() {
        assert(left[b.len() as int] == a[b.len() as int]);
        assert(a.contains(c));
    }
    assert(a =~= left.take(a.len() as int));
    assert(b =~= right.take(b.len() as int));
    assert(x =~= left.skip(a.len() as int + 1));
    assert(y =~= right.skip(b.len() as int + 1));
}

proof fn lemma_lines_front(list: Seq<Seq<char>>, tree: Files)
    requires
        list.len() > 0,
    ensures
        lines(list, tree) == list[0] + seq!['\0'] + (tree[list[0]] + seq!['\n'] + lines(
            list.skip(1),
            tree,
        )),
    decreases list.len(),
{
    let want = list[0] + seq!['\0'] + (tree[list[0]] + seq!['\n'] + lines(list.skip(1), tree));
    if list.len() == 1 {
        assert(list.drop_last() =~= Seq::empty());
        assert(list.skip(1) =~= Seq::empty());
        assert(lines(list.drop_last(), tree) =~= Seq::empty());
        assert(lines(list.skip(1), tree) =~= Seq::empty());
        assert(lines(list, tree) =~= want);
    } else {
        lemma_lines_front(list.drop_last(), tree);
        assert(list.drop_last().skip(1) =~= list.skip(1).drop_last());
        assert(list.skip(1).last() == list.last());
        assert(list.drop_last()[0] == list[0]);
        assert(lines(list, tree) =~= want);
    }
}

/// The listed paths hold no NUL and their signatures no newline.
spec fn plain(list: Seq<Seq<char>>, tree: Files) -> bool {
    forall|i: int|
        0 <= i < list.len() ==> !(#[trigger] list[i]).contains('\0') && !tree[list[i]].contains(
            '\n',
        )
}

proof fn lemma_lines_heads(la: Seq<Seq<char>>, a: Files, lb: Seq<Seq<char>>, b: Files)
    requires
        la.len() > 0,
        lb.len() > 0,
        plain(la, a),
        plain(lb, b),
        lines(la, a) == lines(lb, b),
    ensures
        la[0] == lb[0],
        a[la[0]] == b[lb[0]],
        plain(la.skip(1), a),
        plain(lb.skip(1), b),
        lines(la.skip(1), a) == lines(lb.skip(1), b),
{
    lemma_lines_front(la, a);
    lemma_lines_front(lb, b);
    let ra = lines(la.skip(1), a);
    let rb = lines(lb.skip(1), b);
    assert(!la[0].contains('\0') && !lb[0].contains('\0'));
    lemma_split(la[0], a[la[0]] + seq!['\n'] + ra, lb[0], b[lb[0]] + seq!['\n'] + rb, '\0');
    lemma_split(a[la[0]], ra, b[lb[0]], rb, '\n');
}

proof fn lemma_lines_apart(la: Seq<Seq<char>>, a: Files, lb: Seq<Seq<char>>, b: Files)
    requires
        plain(la, a),
        plain(lb, b),
        lines(la, a) == lines(lb, b),
    ensures
        la == lb,
        forall|i: int| 0 <= i < la.len() ==> a[#[trigger] la[i]] == b[la[i]],
    decreases la.len(),
{
    if la.len() > 0 && lb.len() > 0 {
        lemma_lines_heads(la, a, lb, b);
        let ta = la.skip(1);
        let tb = lb.skip(1);
        lemma_lines_apart(ta, a, tb, b);
        assert(la =~= seq![la[0]] + ta);
        assert(lb =~= seq![lb[0]] + tb);
        assert forall|i: int| 0 <= i < la.len() implies a[#[trigger] la[i]] == b[la[i]] by {
            if i > 0 {
                assert(ta[i - 1] == la[i]);
            }
        }
    } else {
        if la.len() > 0 {
            lemma_lines_front(la, a);
        }
        if lb.len() > 0 {
            lemma_lines_front(lb, b);
        }
        assert(la =~= lb);
    }
}

/// Different trees have different texts: a change of any file, of its content or
/// of anything else its signature tells, shows in what the digest is taken of.
pub proof fn law_text_tells_trees_apart(a: Manifest, b: Manifest)
    requires
        a.wf(),
        b.wf(),
        separable(a@),
        separable(b@),
        tree_text(a@) == tree_text(b@),
    ensures
        a@ == b@,
{
    let la = paths(a.entries@);
    let lb = paths(b.entries@);
    a.lemma_paths();
    b.lemma_paths();
    names::lemma_listing_unique(la, a@.dom());
    names::lemma_listing_unique(lb, b@.dom());
    assert forall|i: int| 0 <= i < la.len() implies !(#[trigger] la[i]).contains('\0')
        && !a@[la[i]].contains('\n') by {
        assert(la.contains(la[i]));
    }
    assert forall|i: int| 0 <= i < lb.len() implies !(#[trigger] lb[i]).contains('\0')
        && !b@[lb[i]].contains('\n') by {
        assert(lb.contains(lb[i]));
    }
    lemma_lines_apart(la, a@, lb, b@);
    assert forall|p: Seq<char>| a@.dom().contains(p) implies #[trigger] a@[p] == b@[p] by {
        let i = choose|i: int| 0 <= i < la.len() && la[i] == p;
        assert(a@[la[i]] == b@[la[i]]);
    }
    assert(a@ =~= b@);
}

/// A tree does not differ from itself.
pub proof fn law_same_tree_has_no_difference(tree: Manifest)
    requires
        tree.wf(),
    ensures
        difference(tree@, tree@).all().len() == 0,
{
    let none = Seq::<Seq<char>>::empty();
    let nothing = Set::<Seq<char>>::empty();
    assert(tree@.dom().difference(tree@.dom()) =~= nothing);
    assert(altered(tree@, tree@) =~= nothing);
    assert(names::lists(none, nothing));
    names::lemma_listing_unique(none, nothing);
}

/// A file is among the changes iff the two trees do not say the same of it: one
/// has it and the other not, or they have it with different signatures.
pub proof fn law_every_change_is_found(a: Manifest, b: Manifest, path: Seq<char>)
    requires
        a.wf(),
        b.wf(),
    ensures
        difference(a@, b@).all().contains(path) <==> a@.dom().contains(path) != b@.dom().contains(
            path,
        ) || (a@.dom().contains(path) && a@[path] != b@[path]),
{
    a.lemma_finite();
    b.lemma_finite();
    let d = difference(a@, b@);
    names::lemma_listing_exists(b@.dom().difference(a@.dom()));
    names::lemma_listing_exists(altered(a@, b@));
    names::lemma_listing_exists(a@.dom().difference(b@.dom()));
    let all = d.all();
    let k = d.added.len() as int;
    let m = d.modified.len() as int;
    if d.added.contains(path) {
        let i = choose|i: int| 0 <= i < d.added.len() && d.added[i] == path;
        assert(all[i] == path);
    }
    if d.modified.contains(path) {
        let i = choose|i: int| 0 <= i < d.modified.len() && d.modified[i] == path;
        assert(all[k + i] == path);
    }
    if d.deleted.contains(path) {
        let i = choose|i: int| 0 <= i < d.deleted.len() && d.deleted[i] == path;
        assert(all[k + m + i] == path);
    }
    if all.contains(path) {
        let i = choose|i: int| 0 <= i < all.len() && all[i] == path;
        if i < k {
            assert(d.added.contains(d.added[i]));
        } else if i < k + m {
            assert(d.modified.contains(d.modified[i - k]));
        } else {
            assert(d.deleted.contains(d.deleted[i - k - m]));
        }
    }
}

/// A file of the later tree alone is added, one of both with another signature is
/// modified, one of the earlier tree alone is deleted; each part is in ascending
/// order, and all changes are these, in this order.
pub proof fn law_changes_are_sorted_by_kind(base: Files, head: Files, path: Seq<char>)
    requires
        base.dom().finite(),
        head.dom().finite(),
    ensures
        ({
            let d = difference(base, head);
            let was = base.dom().contains(path);
            let now = head.dom().contains(path);
            &&& d.added.contains(path) <==> !was && now
            &&& d.modified.contains(path) <==> was && now && base[path] != head[path]
            &&& d.deleted.contains(path) <==> was && !now
            &&& names::ascending(d.added)
            &&& names::ascending(d.modified)
            &&& names::ascending(d.deleted)
            &&& d.all() == d.added + d.modified + d.deleted
        }),
{
    names::lemma_listing_exists(head.dom().difference(base.dom()));
    names::lemma_listing_exists(altered(base, head));
    names::lemma_listing_exists(base.dom().difference(head.dom()));
}

/// The text behind a digest lists every file in ascending order of its path: the
/// path, NUL, the signature, newline.
pub proof fn law_text_lists_every_file(tree: Files, before: Seq<Seq<char>>, path: Seq<char>)
    requires
        tree.dom().finite(),
    ensures
        exists|list: Seq<Seq<char>>| #[trigger]
            lines(list, tree) == tree_text(tree) && names::ascending(list)
                && forall|p: Seq<char>| #[trigger] list.contains(p) <==> tree.dom().contains(p),
        lines(Seq::empty(), tree).len() == 0,
        lines(before.push(path), tree) == lines(before, tree) + path + seq!['\0'] + tree[path]
            + seq!['\n'],
{
    let list = names::listing(tree.dom());
    names::lemma_listing_exists(tree.dom());
    assert(lines(list, tree) == tree_text(tree));
    assert(before.push(path).drop_last() =~= before);
}

} // verus!
