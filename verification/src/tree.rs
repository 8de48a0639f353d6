//! Directory trees as plain values, and the comparison that detects a change.
//!
//! A [`Tree`] is what one observation of a directory holds: for each relative
//! path below the root either a directory or a file with its bytes. The
//! surrounding program reads a directory into a `Tree`; everything that is
//! decided about trees is decided here.
use crate::path::{
    compare_paths, lemma_path_lt_asymmetric, lemma_path_lt_transitive, path_lt, PathOrder,
};
use vstd::prelude::*;

verus! {

/// What a tree holds at one path.
#[derive(Clone, Debug, PartialEq, Eq)]
pub enum Node {
    /// A directory; its members are entries of their own.
    Dir,
    /// A regular file with its contents.
    File(Vec<u8>),
}

/// The mathematical value of a [`Node`].
pub enum NodeView {
    Dir,
    File(Seq<u8>),
}

impl View for Node {
    type V = NodeView;

    open spec fn view(&self) -> NodeView {
        match self {
            Node::Dir => NodeView::Dir,
            Node::File(bytes) => NodeView::File(bytes@),
        }
    }
}

/// The mathematical value of a tree: a finite map from relative path to node.
pub type TreeView = Map<Seq<u8>, NodeView>;

#[derive(Clone, Debug)]
struct Entry {
    path: Vec<u8>,
    node: Node,
}

/// One observation of a directory tree.
///
/// The entries are kept in strictly increasing order of their paths, so that
/// a tree has exactly one representation and two trees can be compared entry
/// by entry.
#[derive(Clone, Debug)]
pub struct Tree {
    entries: Vec<Entry>,
}

spec fn sorted(s: Seq<Entry>) -> bool {
    forall|i: int, j: int| 0 <= i < j < s.len() ==> path_lt(#[trigger] s[i].path@, #[trigger] s[j].path@)
}

spec fn has(s: Seq<Entry>, p: Seq<u8>) -> bool {
    exists|i: int| 0 <= i < s.len() && #[trigger] s[i].path@ == p
}

spec fn at(s: Seq<Entry>, p: Seq<u8>) -> int {
    choose|i: int| 0 <= i < s.len() && #[trigger] s[i].path@ == p
}

spec fn model(s: Seq<Entry>) -> TreeView {
    Map::new(|p: Seq<u8>| has(s, p), |p: Seq<u8>| s[at(s, p)].node@)
}

/// `k` is where an entry for `p` belongs in `s`: everything before is
/// smaller, everything from `k` on is larger.
spec fn gap(s: Seq<Entry>, p: Seq<u8>, k: int) -> bool {
    &&& 0 <= k <= s.len()
    &&& forall|j: int| 0 <= j < k ==> path_lt(#[trigger] s[j].path@, p)
    &&& forall|j: int| k <= j < s.len() ==> path_lt(p, #[trigger] s[j].path@)
}

proof fn lemma_distinct(s: Seq<Entry>, i: int, j: int)
    requires
        sorted(s),
        0 <= i < s.len(),
        0 <= j < s.len(),
        s[i].path@ == s[j].path@,
    ensures
        i == j,
{
    if i < j {
        lemma_path_lt_asymmetric(s[i].path@, s[j].path@);
    } else if j < i {
        lemma_path_lt_asymmetric(s[j].path@, s[i].path@);
    }
}

proof fn lemma_lookup(s: Seq<Entry>, i: int)
    requires
        sorted(s),
        0 <= i < s.len(),
    ensures
        model(s).dom().contains(s[i].path@),
        model(s)[s[i].path@] == s[i].node@,
        at(s, s[i].path@) == i,
{
    let p = s[i].path@;
    assert(has(s, p));
    lemma_distinct(s, i, at(s, p));
}

proof fn lemma_gap_absent(s: Seq<Entry>, p: Seq<u8>, k: int)
    requires
        gap(s, p, k),
    ensures
        !model(s).dom().contains(p),
{
    if has(s, p) {
        let i = at(s, p);
        if i < k {
            lemma_path_lt_asymmetric(s[i].path@, p);
        } else {
            lemma_path_lt_asymmetric(p, s[i].path@);
        }
    }
}

proof fn lemma_insert(s: Seq<Entry>, k: int, e: Entry)
    requires
        sorted(s),
        gap(s, e.path@, k),
    ensures
        sorted(s.insert(k, e)),
        model(s.insert(k, e)) == model(s).insert(e.path@, e.node@),
{
    let t = s.insert(k, e);
    assert forall|i: int, j: int| 0 <= i < j < t.len() implies path_lt(
        #[trigger] t[i].path@,
        #[trigger] t[j].path@,
    ) by {
        if i < k && j > k {
            assert(path_lt(s[i].path@, s[j - 1].path@));
        } else if i < k && j < k {
            assert(path_lt(s[i].path@, s[j].path@));
        } else if i > k {
            assert(path_lt(s[i - 1].path@, s[j - 1].path@));
        }
    }
    assert forall|p: Seq<u8>| has(t, p) <==> (p == e.path@ || has(s, p)) by {
        if has(t, p) {
            let i = at(t, p);
            if i < k {
                assert(s[i].path@ == p);
            } else if i > k {
                assert(s[i - 1].path@ == p);
            }
        }
        if p == e.path@ {
            assert(t[k].path@ == p);
        }
        if has(s, p) {
            let i = at(s, p);
            if i < k {
                assert(t[i].path@ == p);
            } else {
                assert(t[i + 1].path@ == p);
            }
        }
    }
    assert forall|p: Seq<u8>| has(t, p) implies #[trigger] model(t)[p] == model(s).insert(
        e.path@,
        e.node@,
    )[p] by {
        let i = at(t, p);
        lemma_lookup(t, i);
        if i < k {
            assert(t[i] == s[i]);
            lemma_lookup(s, i);
            lemma_path_lt_asymmetric(s[i].path@, e.path@);
        } else if i > k {
            assert(t[i] == s[i - 1]);
            lemma_lookup(s, i - 1);
            lemma_path_lt_asymmetric(e.path@, s[i - 1].path@);
        }
    }
    assert(model(t) =~= model(s).insert(e.path@, e.node@));
}

proof fn lemma_update(s: Seq<Entry>, k: int, e: Entry)
    requires
        sorted(s),
        0 <= k < s.len(),
        s[k].path@ == e.path@,
    ensures
        sorted(s.update(k, e)),
        model(s.update(k, e)) == model(s).insert(e.path@, e.node@),
{
    let t = s.update(k, e);
    assert forall|i: int, j: int| 0 <= i < j < t.len() implies path_lt(
        #[trigger] t[i].path@,
        #[trigger] t[j].path@,
    ) by {
        assert(path_lt(s[i].path@, s[j].path@));
    }
    assert forall|p: Seq<u8>| has(t, p) <==> has(s, p) by {
        if has(t, p) {
            assert(s[at(t, p)].path@ == p);
        }
        if has(s, p) {
            assert(t[at(s, p)].path@ == p);
        }
    }
    assert(has(s, e.path@));
    assert forall|p: Seq<u8>| has(t, p) implies #[trigger] model(t)[p] == model(s).insert(
        e.path@,
        e.node@,
    )[p] by {
        let i = at(t, p);
        lemma_lookup(t, i);
        if i != k {
            lemma_lookup(s, i);
            if s[i].path@ == e.path@ {
                lemma_distinct(s, i, k);
            }
        }
    }
    assert(model(t) =~= model(s).insert(e.path@, e.node@));
}

proof fn lemma_remove(s: Seq<Entry>, k: int)
    requires
        sorted(s),
        0 <= k < s.len(),
    ensures
        sorted(s.remove(k)),
        model(s.remove(k)) == model(s).remove(s[k].path@),
{
    let t = s.remove(k);
    let gone = s[k].path@;
    assert forall|i: int, j: int| 0 <= i < j < t.len() implies path_lt(
        #[trigger] t[i].path@,
        #[trigger] t[j].path@,
    ) by {
        if j < k {
            assert(path_lt(s[i].path@, s[j].path@));
        } else if i < k {
            assert(path_lt(s[i].path@, s[j + 1].path@));
        } else {
            assert(path_lt(s[i + 1].path@, s[j + 1].path@));
        }
    }
    assert forall|p: Seq<u8>| has(t, p) <==> (p != gone && has(s, p)) by {
        if has(t, p) {
            let i = at(t, p);
            if i < k {
                assert(s[i].path@ == p);
                if p == gone {
                    lemma_distinct(s, i, k);
                }
            } else {
                assert(s[i + 1].path@ == p);
                if p == gone {
                    lemma_distinct(s, i + 1, k);
                }
            }
        }
        if p != gone && has(s, p) {
            let i = at(s, p);
            if i < k {
                assert(t[i].path@ == p);
            } else {
                assert(t[i - 1].path@ == p);
            }
        }
    }
    assert forall|p: Seq<u8>| has(t, p) implies #[trigger] model(t)[p] == model(s).remove(
        gone,
    )[p] by {
        let i = at(t, p);
        lemma_lookup(t, i);
        if i < k {
            lemma_lookup(s, i);
        } else {
            lemma_lookup(s, i + 1);
        }
    }
    assert(model(t) =~= model(s).remove(gone));
}

/// Compares two byte strings.
pub fn bytes_equal(a: &[u8], b: &[u8]) -> (same: bool)
    ensures
        same == (a@ == b@),
{
    if a.len() != b.len() {
        return false;
    }
    let mut i: usize = 0;
    while i < a.len()
        invariant
            a.len() == b.len(),
            i <= a.len(),
            forall|j: int| 0 <= j < i ==> a@[j] == b@[j],
        decreases a.len() - i,
    {
        if a[i] != b[i] {
            return false;
        }
        i += 1;
    }
    assert(a@ =~= b@);
    true
}

impl Node {
    /// Whether two nodes are of the same kind and, for files, hold the same
    /// bytes.
    pub fn same_as(&self, other: &Node) -> (same: bool)
        ensures
            same == (self@ == other@),
    {
        match (self, other) {
            (Node::Dir, Node::Dir) => true,
            (Node::File(a), Node::File(b)) => bytes_equal(a.as_slice(), b.as_slice()),
            _ => false,
        }
    }
}

impl View for Tree {
    type V = TreeView;

    closed spec fn view(&self) -> TreeView {
        model(self.entries@)
    }
}

impl Tree {
    /// The representation invariant: the entries are strictly increasing by
    /// path. Every tree that this module hands out satisfies it.
    pub closed spec fn wf(&self) -> bool {
        sorted(self.entries@)
    }

    /// The paths of the tree in increasing order: the order in which
    /// [`Tree::path_at`] and [`Tree::node_at`] enumerate the entries.
    pub closed spec fn paths(&self) -> Seq<Seq<u8>> {
        Seq::new(self.entries@.len(), |i: int| self.entries@[i].path@)
    }

    /// The listing is strictly increasing and holds exactly the paths of the
    /// tree.
    pub proof fn lemma_paths(&self)
        requires
            self.wf(),
        ensures
            forall|i: int, j: int|
                0 <= i < j < self.paths().len() ==> path_lt(
                    #[trigger] self.paths()[i],
                    #[trigger] self.paths()[j],
                ),
            forall|i: int|
                0 <= i < self.paths().len() ==> self@.dom().contains(#[trigger] self.paths()[i]),
            forall|p: Seq<u8>| self@.dom().contains(p) ==> self.paths().contains(p),
    {
        let s = self.entries@;
        assert forall|i: int, j: int| 0 <= i < j < self.paths().len() implies path_lt(
            #[trigger] self.paths()[i],
            #[trigger] self.paths()[j],
        ) by {
            assert(path_lt(s[i].path@, s[j].path@));
        }
        assert forall|i: int| 0 <= i < self.paths().len() implies self@.dom().contains(
            #[trigger] self.paths()[i],
        ) by {
            lemma_lookup(s, i);
        }
        assert forall|p: Seq<u8>| self@.dom().contains(p) implies self.paths().contains(p) by {
            assert(self.paths()[at(s, p)] == p);
        }
    }

    /// A tree has finitely many paths, as many as its listing is long.
    pub proof fn lemma_len(&self)
        requires
            self.wf(),
        ensures
            self@.dom().finite(),
            self@.dom().len() == self.paths().len(),
    {
        self.lemma_paths();
        let listing = self.paths();
        assert forall|i: int, j: int|
            0 <= i < listing.len() && 0 <= j < listing.len() && i != j implies listing[i]
            != listing[j] by {
            if i < j {
                lemma_path_lt_asymmetric(listing[i], listing[j]);
            } else {
                lemma_path_lt_asymmetric(listing[j], listing[i]);
            }
        }
        listing.unique_seq_to_set();
        vstd::seq_lib::seq_to_set_is_finite(listing);
        assert(listing.to_set() =~= self@.dom());
    }

    /// The empty tree.
    pub fn new() -> (tree: Tree)
        ensures
            tree.wf(),
            tree@ == TreeView::empty(),
            tree.paths().len() == 0,
    {
        let tree = Tree { entries: Vec::new() };
        assert(tree@ =~= TreeView::empty());
        tree
    }

    /// The number of entries.
    pub fn len(&self) -> (n: usize)
        ensures
            n == self.paths().len(),
            self.wf() ==> n == self@.dom().len(),
    {
        proof {
            if self.wf() {
                self.lemma_len();
            }
        }
        self.entries.len()
    }

    /// The path of the entry at place `i` of the listing.
    pub fn path_at(&self, i: usize) -> (path: &[u8])
        requires
            i < self.paths().len(),
        ensures
            path@ == self.paths()[i as int],
    {
        self.entries[i].path.as_slice()
    }

    /// The node of the entry at place `i` of the listing.
    pub fn node_at(&self, i: usize) -> (node: &Node)
        requires
            self.wf(),
            i < self.paths().len(),
        ensures
            self@.dom().contains(self.paths()[i as int]),
            node@ == self@[self.paths()[i as int]],
    {
        proof {
            lemma_lookup(self.entries@, i as int);
        }
        &self.entries[i].node
    }

    /// Finds the place of `path`: the index of its entry and `true`, or the
    /// index at which an entry for it belongs and `false`.
    fn locate(&self, path: &[u8]) -> (place: (usize, bool))
        requires
            self.wf(),
        ensures
            place.1 ==> place.0 < self.entries@.len() && self.entries@[place.0 as int].path@
                == path@,
            !place.1 ==> gap(self.entries@, path@, place.0 as int),
    {
        let mut lo: usize = 0;
        let mut hi: usize = self.entries.len();
        while lo < hi
            invariant
                self.wf(),
                lo <= hi <= self.entries@.len(),
                forall|j: int| 0 <= j < lo ==> path_lt(#[trigger] self.entries@[j].path@, path@),
                forall|j: int|
                    hi <= j < self.entries@.len() ==> path_lt(
                        path@,
                        #[trigger] self.entries@[j].path@,
                    ),
            decreases hi - lo,
        {
            let mid: usize = lo + (hi - lo) / 2;
            let ghost s = self.entries@;
            match compare_paths(self.entries[mid].path.as_slice(), path) {
                PathOrder::Same => {
                    return (mid, true);
                },
                PathOrder::Before => {
                    proof {
                        assert forall|j: int| 0 <= j < mid + 1 implies path_lt(
                            #[trigger] s[j].path@,
                            path@,
                        ) by {
                            if j < mid {
                                assert(path_lt(s[j].path@, s[mid as int].path@));
                                lemma_path_lt_transitive(s[j].path@, s[mid as int].path@, path@);
                            }
                        }
                    }
                    lo = mid + 1;
                },
                PathOrder::After => {
                    proof {
                        assert forall|j: int| mid <= j < s.len() implies path_lt(
                            path@,
                            #[trigger] s[j].path@,
                        ) by {
                            if j > mid {
                                assert(path_lt(s[mid as int].path@, s[j].path@));
                                lemma_path_lt_transitive(path@, s[mid as int].path@, s[j].path@);
                            }
                        }
                    }
                    hi = mid;
                },
            }
        }
        (lo, false)
    }

    /// Looks a path up.
    pub fn get(&self, path: &[u8]) -> (found: Option<&Node>)
        requires
            self.wf(),
        ensures
            found is Some <==> self@.dom().contains(path@),
            found is Some ==> found.unwrap()@ == self@[path@],
    {
        let (k, present) = self.locate(path);
        if present {
            proof {
                lemma_lookup(self.entries@, k as int);
            }
            Some(&self.entries[k].node)
        } else {
            proof {
                lemma_gap_absent(self.entries@, path@, k as int);
            }
            None
        }
    }

    /// Whether the tree holds an entry at `path`.
    pub fn contains(&self, path: &[u8]) -> (present: bool)
        requires
            self.wf(),
        ensures
            present == self@.dom().contains(path@),
    {
        self.get(path).is_some()
    }

    /// Puts `node` at `path`, in place of what was there.
    pub fn insert(&mut self, path: Vec<u8>, node: Node)
        requires
            old(self).wf(),
        ensures
            final(self).wf(),
            final(self)@ == old(self)@.insert(path@, node@),
    {
        let (k, present) = self.locate(path.as_slice());
        let entry = Entry { path, node };
        if present {
            proof {
                lemma_update(self.entries@, k as int, entry);
            }
            self.entries[k] = entry;
        } else {
            proof {
                lemma_insert(self.entries@, k as int, entry);
            }
            self.entries.insert(k, entry);
        }
    }

    /// Takes the entry at `path` out, if there is one, and returns its node.
    pub fn remove(&mut self, path: &[u8]) -> (removed: Option<Node>)
        requires
            old(self).wf(),
        ensures
            final(self).wf(),
            final(self)@ == old(self)@.remove(path@),
            removed is Some <==> old(self)@.dom().contains(path@),
            removed is Some ==> removed.unwrap()@ == old(self)@[path@],
    {
        let (k, present) = self.locate(path);
        if present {
            proof {
                lemma_lookup(self.entries@, k as int);
                lemma_remove(self.entries@, k as int);
            }
            let entry = self.entries.remove(k);
            Some(entry.node)
        } else {
            proof {
                lemma_gap_absent(self.entries@, path@, k as int);
                assert(self@ =~= self@.remove(path@));
            }
            None
        }
    }
}

/// Two trees differ at `p`: one of them has an entry there and the other has
/// none, or both have one and the two nodes differ (in kind, or in a byte of
/// a file).
pub open spec fn differs_at(a: TreeView, b: TreeView, p: Seq<u8>) -> bool {
    if a.dom().contains(p) {
        !b.dom().contains(p) || a[p] != b[p]
    } else {
        b.dom().contains(p)
    }
}

/// Two trees are different values exactly when they differ at some path.
pub proof fn lemma_difference_has_witness(a: TreeView, b: TreeView)
    ensures
        a != b <==> exists|p: Seq<u8>| differs_at(a, b, p),
{
    if forall|p: Seq<u8>| !differs_at(a, b, p) {
        assert forall|p: Seq<u8>| a.dom().contains(p) == b.dom().contains(p) by {
            assert(!differs_at(a, b, p));
        }
        assert forall|p: Seq<u8>| #[trigger] a.dom().contains(p) implies a[p] == b[p] by {
            assert(!differs_at(a, b, p));
        }
        assert(a =~= b);
    }
}

/// Two files differ exactly when their lengths differ or some byte does.
pub proof fn lemma_file_difference_has_witness(x: Seq<u8>, y: Seq<u8>)
    ensures
        NodeView::File(x) != NodeView::File(y) <==> (x.len() != y.len() || exists|i: int|
            0 <= i < x.len() && x[i] != y[i]),
{
    if x.len() == y.len() && forall|i: int| 0 <= i < x.len() ==> x[i] == y[i] {
        assert(x =~= y);
    }
}

proof fn lemma_mismatch(a: Seq<Entry>, b: Seq<Entry>, i: int)
    requires
        sorted(a),
        sorted(b),
        0 <= i < a.len(),
        i <= b.len(),
        forall|j: int| 0 <= j < i ==> (#[trigger] a[j]).path@ == b[j].path@,
        i < b.len() ==> path_lt(a[i].path@, b[i].path@),
    ensures
        model(a).dom().contains(a[i].path@),
        !model(b).dom().contains(a[i].path@),
{
    let p = a[i].path@;
    lemma_lookup(a, i);
    assert forall|j: int| 0 <= j < i implies path_lt(#[trigger] b[j].path@, p) by {
        assert(a[j].path@ == b[j].path@);
        assert(path_lt(a[j].path@, a[i].path@));
    }
    assert forall|j: int| i <= j < b.len() implies path_lt(p, #[trigger] b[j].path@) by {
        if j > i {
            assert(path_lt(b[i].path@, b[j].path@));
            lemma_path_lt_transitive(p, b[i].path@, b[j].path@);
        }
    }
    lemma_gap_absent(b, p, i);
}

proof fn lemma_same_entries(a: Seq<Entry>, b: Seq<Entry>)
    requires
        sorted(a),
        sorted(b),
        a.len() == b.len(),
        forall|j: int|
            0 <= j < a.len() ==> (#[trigger] a[j]).path@ == b[j].path@ && a[j].node@ == b[j].node@,
    ensures
        model(a) == model(b),
{
    assert forall|p: Seq<u8>| has(a, p) == has(b, p) by {
        if has(a, p) {
            let i = at(a, p);
            assert(a[i].path@ == b[i].path@);
        }
        if has(b, p) {
            let i = at(b, p);
            assert(a[i].path@ == b[i].path@);
        }
    }
    assert forall|p: Seq<u8>| has(a, p) implies #[trigger] model(a)[p] == model(b)[p] by {
        let i = at(a, p);
        assert(a[i].path@ == b[i].path@);
        lemma_lookup(a, i);
        lemma_lookup(b, i);
    }
    assert(model(a) =~= model(b));
}

/// The tree comparison: `true` when the two trees differ in any way (an
/// entry present in one only, a directory against a file, one byte of one
/// file), `false` when they are the same tree.
pub fn has_changed(current: &Tree, snapshot: &Tree) -> (changed: bool)
    requires
        current.wf(),
        snapshot.wf(),
    ensures
        changed == (current@ != snapshot@),
{
    let n = current.entries.len();
    let m = snapshot.entries.len();
    let ghost a = current.entries@;
    let ghost b = snapshot.entries@;
    let mut i: usize = 0;
    while i < n && i < m
        invariant
            current.wf(),
            snapshot.wf(),
            a == current.entries@,
            b == snapshot.entries@,
            n == a.len(),
            m == b.len(),
            i <= n,
            i <= m,
            forall|j: int|
                0 <= j < i ==> (#[trigger] a[j]).path@ == b[j].path@ && a[j].node@ == b[j].node@,
        decreases n - i,
    {
        let x = &current.entries[i];
        let y = &snapshot.entries[i];
        match compare_paths(x.path.as_slice(), y.path.as_slice()) {
            PathOrder::Before => {
                proof {
                    lemma_mismatch(a, b, i as int);
                }
                return true;
            },
            PathOrder::After => {
                proof {
                    lemma_mismatch(b, a, i as int);
                }
                return true;
            },
            PathOrder::Same => {
                if !x.node.same_as(&y.node) {
                    proof {
                        lemma_lookup(a, i as int);
                        lemma_lookup(b, i as int);
                    }
                    return true;
                }
            },
        }
        i += 1;
    }
    proof {
        if n > m {
            lemma_mismatch(a, b, i as int);
        } else if m > n {
            lemma_mismatch(b, a, i as int);
        } else {
            lemma_same_entries(a, b);
        }
    }
    n != m
}

} // verus!
