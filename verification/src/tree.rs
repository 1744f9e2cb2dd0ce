//! The presentation tree of an archive: the names of its files, directory by
//! directory, with the contents of nested archives below their own names.
//!
//! What a tree shows is the set of name chains that lead from its top to one
//! of its nodes. Merging two trees of names shows what either of them shows.
//!
//! A tree is handed on as a map from names to values, and the merge is
//! stated for such maps in general: under a name may stand a list or another
//! value as well. The tree of an archive has trees of names only.

use crate::assoc::{distinct_keys, index_of, index_of_spec};
use vstd::prelude::*;

verus! {

/// A tree of names, as a value of mathematics: each node is a name with the
/// tree below it.
pub ghost struct Shape {
    pub nodes: Seq<(Seq<char>, Shape)>,
}

/// A tree of names.
pub struct Tree {
    pub nodes: Vec<Node>,
}

/// What stands under a name.
pub enum Kind {
    /// A tree of names: what lies below the node.
    Object,
    /// A list of values, each as its text.
    Array(Vec<String>),
    /// Any other value, as its text.
    Other(String),
}

/// A named place in a tree, with what stands under the name. Where that is a
/// tree of names, it is `subtree`; a plain file has an empty one. The tree of
/// an archive has no other nodes.
pub struct Node {
    pub name: String,
    pub subtree: Tree,
    pub kind: Kind,
}

/// What stands under a name, as a value of mathematics.
pub ghost enum Item {
    Object(Seq<(Seq<char>, Item)>),
    Array(Seq<Seq<char>>),
    Other(Seq<char>),
}

/// What a node of this kind holds, with `below` for what its subtree holds.
pub open spec fn item_of(kind: Kind, below: Seq<(Seq<char>, Item)>) -> Item {
    match kind {
        Kind::Object => Item::Object(below),
        Kind::Array(values) => Item::Array(names(values@)),
        Kind::Other(value) => Item::Other(value@),
    }
}

/// How many names a tree of names has; none for another value.
pub open spec fn width(item: Item) -> nat {
    match item {
        Item::Object(entries) => entries.len(),
        _ => 0,
    }
}

/// What merging `new` into `old` leaves under a name: two trees of names are
/// merged, of two lists the new one follows the old one, and in every other
/// case the new value stands.
pub open spec fn joined(old: Item, new: Item) -> Item
    decreases new, width(new) + 2,
{
    match new {
        Item::Object(theirs) => match old {
            Item::Object(ours) => Item::Object(merged_upto(ours, new, theirs.len())),
            _ => new,
        },
        Item::Array(theirs) => match old {
            Item::Array(ours) => Item::Array(ours + theirs),
            _ => new,
        },
        Item::Other(_) => new,
    }
}

/// The entries `ours` after the first `n` entries of the tree of names `new`
/// were merged into them, one after the other: an entry whose name `ours`
/// has is joined to the first of that name, another is added at the end.
pub open spec fn merged_upto(ours: Seq<(Seq<char>, Item)>, new: Item, n: nat) -> Seq<
    (Seq<char>, Item),
>
    decreases new, 1nat + n,
{
    match new {
        Item::Object(theirs) => {
            if n == 0 || n > theirs.len() {
                ours
            } else {
                let sofar = merged_upto(ours, new, (n - 1) as nat);
                let i = index_of(sofar, theirs[n - 1].0);
                if i >= 0 {
                    sofar.update(i, (theirs[n - 1].0, joined(sofar[i].1, theirs[n - 1].1)))
                } else {
                    sofar.push(theirs[n - 1])
                }
            }
        },
        _ => ours,
    }
}

/// What the tree holds that has `parts` as a single chain with `leaf` at its
/// end.
pub open spec fn chained(parts: Seq<Seq<char>>, leaf: Seq<(Seq<char>, Item)>) -> Seq<
    (Seq<char>, Item),
>
    decreases parts.len(),
{
    if parts.len() == 0 {
        leaf
    } else {
        seq![(parts[0], Item::Object(chained(parts.drop_first(), leaf)))]
    }
}

/// The entries `ours` after the entries `theirs` were merged into them.
pub open spec fn merged(ours: Seq<(Seq<char>, Item)>, theirs: Seq<(Seq<char>, Item)>) -> Seq<
    (Seq<char>, Item),
> {
    merged_upto(ours, Item::Object(theirs), theirs.len())
}

/// The texts of a list, where the kind is one; no texts else.
pub open spec fn values_of(kind: Kind) -> Seq<Seq<char>> {
    match kind {
        Kind::Array(values) => names(values@),
        _ => Seq::empty(),
    }
}

/// Copies of the strings of `list`.
pub fn copy_strings(list: &Vec<String>) -> (r: Vec<String>)
    ensures
        names(r@) == names(list@),
{
    let mut r: Vec<String> = Vec::new();
    let mut i: usize = 0;
    while i < list.len()
        invariant
            i <= list.len(),
            r.len() == i,
            forall|k: int| 0 <= k < i ==> (#[trigger] r@[k])@ == list@[k]@,
        decreases list.len() - i,
    {
        r.push(list[i].clone());
        i += 1;
    }
    assert(names(r@) =~= names(list@));
    r
}

impl Kind {
    /// Whether a tree of names stands under the name.
    pub fn is_object(&self) -> (r: bool)
        ensures
            r == (*self is Object),
    {
        match self {
            Kind::Object => true,
            _ => false,
        }
    }

    /// Whether a list stands under the name.
    pub fn is_array(&self) -> (r: bool)
        ensures
            r == (*self is Array),
    {
        match self {
            Kind::Array(_) => true,
            _ => false,
        }
    }

    /// Copies of the texts of a list; none for another kind.
    pub fn values(&self) -> (r: Vec<String>)
        ensures
            names(r@) == values_of(*self),
    {
        match self {
            Kind::Array(values) => copy_strings(values),
            _ => {
                let r: Vec<String> = Vec::new();
                assert(names(r@) =~= Seq::empty());
                r
            },
        }
    }

    /// A copy of the kind.
    pub fn copy(&self) -> (r: Kind)
        ensures
            (r is Object) == (*self is Object),
            forall|below: Seq<(Seq<char>, Item)>| #[trigger] item_of(r, below) == item_of(*self, below),
    {
        match self {
            Kind::Object => Kind::Object,
            Kind::Array(values) => Kind::Array(copy_strings(values)),
            Kind::Other(value) => Kind::Other(value.clone()),
        }
    }
}

impl Shape {
    /// The tree without any node.
    pub open spec fn empty() -> Shape {
        Shape { nodes: Seq::empty() }
    }

    /// The tree holds the chain of names `path`, from the top down.
    pub open spec fn has_path(self, path: Seq<Seq<char>>) -> bool
        decreases path.len(),
    {
        path.len() == 0 || exists|i: int|
            0 <= i < self.nodes.len() && (#[trigger] self.nodes[i]).0 == path[0]
                && self.nodes[i].1.has_path(path.drop_first())
    }

    /// No two nodes with the same parent have the same name.
    pub open spec fn unique(self) -> bool
        decreases self,
    {
        &&& distinct_keys(self.nodes)
        &&& forall|i: int| 0 <= i < self.nodes.len() ==> (#[trigger] self.nodes[i]).1.unique()
    }

    /// The tree that holds `parts` as a single chain with `leaf` at its end.
    pub open spec fn chain(parts: Seq<Seq<char>>, leaf: Shape) -> Shape
        decreases parts.len(),
    {
        if parts.len() == 0 {
            leaf
        } else {
            Shape { nodes: seq![(parts[0], Shape::chain(parts.drop_first(), leaf))] }
        }
    }

    /// The tree with one more node at the end.
    pub open spec fn pushed(self, name: Seq<char>, below: Shape) -> Shape {
        Shape { nodes: self.nodes.push((name, below)) }
    }

    /// The tree with `below` put under node `i` in place of what was there.
    pub open spec fn regrown(self, i: int, below: Shape) -> Shape {
        Shape { nodes: self.nodes.update(i, (self.nodes[i].0, below)) }
    }

    /// The tree made of the first `n` nodes.
    pub open spec fn first(self, n: int) -> Shape {
        Shape { nodes: self.nodes.take(n) }
    }

    /// This tree shows what `a` shows, what `b` shows, and nothing else.
    pub open spec fn shows_both(self, a: Shape, b: Shape) -> bool {
        forall|path: Seq<Seq<char>>| #[trigger]
            self.has_path(path) <==> a.has_path(path) || b.has_path(path)
    }
}

impl Tree {
    /// The tree as a value of mathematics.
    pub open spec fn shape(self) -> Shape
        decreases self,
    {
        Shape {
            nodes: Seq::new(
                self.nodes.len() as nat,
                |i: int|
                    if 0 <= i < self.nodes.len() {
                        (self.nodes@[i].name@, self.nodes@[i].subtree.shape())
                    } else {
                        (Seq::empty(), Shape::empty())
                    },
            ),
        }
    }

    /// What the tree holds: each name with what stands under it.
    pub open spec fn doc(self) -> Seq<(Seq<char>, Item)>
        decreases self,
    {
        Seq::new(
            self.nodes.len() as nat,
            |i: int|
                if 0 <= i < self.nodes.len() {
                    (
                        self.nodes@[i].name@,
                        item_of(self.nodes@[i].kind, self.nodes@[i].subtree.doc()),
                    )
                } else {
                    (Seq::empty(), Item::Other(Seq::empty()))
                },
        )
    }

    /// The tree is one of names only: under every name stands a tree of
    /// names.
    pub open spec fn plain(self) -> bool
        decreases self,
    {
        forall|i: int|
            0 <= i < self.nodes.len() ==> (#[trigger] self.nodes@[i]).kind is Object
                && self.nodes@[i].subtree.plain()
    }

    /// A tree without nodes.
    pub fn new() -> (r: Tree)
        ensures
            r.shape() == Shape::empty(),
            r.doc() == Seq::<(Seq<char>, Item)>::empty(),
            r.plain(),
    {
        let r = Tree { nodes: Vec::new() };
        assert(r.shape().nodes =~= Seq::empty());
        assert(r.doc() =~= Seq::empty());
        r
    }

    /// The position of the first node called `name`.
    pub fn position(&self, name: &String) -> (r: Option<usize>)
        ensures
            match r {
                Some(i) => i == index_of(self.shape().nodes, name@) && i < self.nodes.len(),
                None => index_of(self.shape().nodes, name@) == -1,
            },
            index_of(self.doc(), name@) == index_of(self.shape().nodes, name@),
    {
        let ghost nodes = self.shape().nodes;
        let ghost entries = self.doc();
        assert(entries.len() == nodes.len());
        assert(forall|k: int| 0 <= k < nodes.len() ==> (#[trigger] entries[k]).0 == nodes[k].0);
        let mut i: usize = 0;
        while i < self.nodes.len()
            invariant
                i <= self.nodes.len(),
                nodes == self.shape().nodes,
                entries == self.doc(),
                entries.len() == nodes.len(),
                forall|k: int| 0 <= k < nodes.len() ==> (#[trigger] entries[k]).0 == nodes[k].0,
                forall|k: int| 0 <= k < i ==> (#[trigger] nodes[k]).0 != name@,
            decreases self.nodes.len() - i,
        {
            if self.nodes[i].name == *name {
                proof {
                    index_of_spec(nodes, name@);
                    let found = index_of(nodes, name@);
                    assert(nodes[i as int].0 == name@);
                    if found < 0 || found > i {
                        assert(nodes[i as int].0 != name@);
                    }
                    if 0 <= found < i {
                        assert(nodes[found].0 != name@);
                    }
                    index_of_spec(entries, name@);
                    let other = index_of(entries, name@);
                    assert(entries[i as int].0 == name@);
                    if other < 0 || other > i {
                        assert(entries[i as int].0 != name@);
                    }
                    if 0 <= other < i {
                        assert(entries[other].0 == nodes[other].0);
                    }
                }
                return Some(i);
            }
            i += 1;
        }
        proof {
            index_of_spec(nodes, name@);
            let found = index_of(nodes, name@);
            if found >= 0 {
                assert(nodes[found].0 != name@);
            }
            index_of_spec(entries, name@);
            let other = index_of(entries, name@);
            if other >= 0 {
                assert(entries[other].0 == nodes[other].0);
            }
        }
        None
    }

    /// A copy of the tree.
    pub fn copy(&self) -> (r: Tree)
        ensures
            r.shape() == self.shape(),
            r.doc() == self.doc(),
            r.plain() == self.plain(),
        decreases self,
    {
        let mut nodes: Vec<Node> = Vec::new();
        let mut i: usize = 0;
        while i < self.nodes.len()
            invariant
                i <= self.nodes.len(),
                nodes.len() == i,
                forall|k: int|
                    0 <= k < i ==> (#[trigger] nodes@[k]).name@ == self.nodes@[k].name@
                        && nodes@[k].subtree.shape() == self.nodes@[k].subtree.shape()
                        && nodes@[k].subtree.doc() == self.nodes@[k].subtree.doc()
                        && nodes@[k].subtree.plain() == self.nodes@[k].subtree.plain()
                        && (nodes@[k].kind is Object) == (self.nodes@[k].kind is Object)
                        && item_of(nodes@[k].kind, Seq::empty()) == item_of(
                        self.nodes@[k].kind,
                        Seq::empty(),
                    ),
            decreases self.nodes.len() - i,
        {
            let node = Node {
                name: self.nodes[i].name.clone(),
                subtree: self.nodes[i].subtree.copy(),
                kind: self.nodes[i].kind.copy(),
            };
            nodes.push(node);
            i += 1;
        }
        let r = Tree { nodes };
        assert(r.shape().nodes =~= self.shape().nodes);
        assert(r.doc() =~= self.doc()) by {
            assert forall|k: int| 0 <= k < self.nodes.len() implies r.doc()[k] == self.doc()[k] by {
                assert(item_of(r.nodes@[k].kind, Seq::empty()) == item_of(
                    self.nodes@[k].kind,
                    Seq::empty(),
                ));
            }
        }
        assert(r.plain() == self.plain()) by {
            if self.plain() {
                assert forall|k: int| 0 <= k < r.nodes.len() implies (#[trigger] r.nodes@[k]).kind is Object
                    && r.nodes@[k].subtree.plain() by {
                    assert(self.nodes@[k].kind is Object);
                }
            }
            if r.plain() {
                assert forall|k: int| 0 <= k < self.nodes.len() implies (
                #[trigger] self.nodes@[k]).kind is Object && self.nodes@[k].subtree.plain() by {
                    assert(r.nodes@[k].kind is Object);
                }
            }
        }
        r
    }

    /// The tree that holds `parts` as a single chain with `leaf` at its end.
    pub fn chain(parts: &Vec<String>, leaf: Tree) -> (r: Tree)
        ensures
            r.shape() == Shape::chain(names(parts@), leaf.shape()),
            r.doc() == chained(names(parts@), leaf.doc()),
            leaf.plain() ==> r.plain(),
    {
        let mut r = leaf;
        let mut i: usize = parts.len();
        assert(names(parts@).skip(i as int) =~= Seq::empty());
        while i > 0
            invariant
                i <= parts.len(),
                r.shape() == Shape::chain(names(parts@).skip(i as int), leaf.shape()),
                r.doc() == chained(names(parts@).skip(i as int), leaf.doc()),
                leaf.plain() ==> r.plain(),
            decreases i,
        {
            i -= 1;
            let ghost below = r.shape();
            let ghost held = r.doc();
            let node = Node { name: parts[i].clone(), subtree: r, kind: Kind::Object };
            let mut nodes: Vec<Node> = Vec::new();
            nodes.push(node);
            r = Tree { nodes };
            proof {
                let rest = names(parts@).skip(i as int);
                assert(rest.drop_first() =~= names(parts@).skip(i + 1));
                assert(rest[0] == parts@[i as int]@);
                assert(r.shape().nodes =~= seq![(rest[0], below)]);
                assert(r.doc() =~= seq![(rest[0], Item::Object(held))]);
            }
        }
        assert(names(parts@).skip(0) =~= names(parts@));
        r
    }
}

/// The views of the names in `parts`.
pub open spec fn names(parts: Seq<String>) -> Seq<Seq<char>> {
    Seq::new(parts.len(), |i: int| parts[i]@)
}

/// Adding a node at the end adds the chains that start with its name and go on
/// below it.
pub proof fn paths_after_push(s: Shape, name: Seq<char>, below: Shape, path: Seq<Seq<char>>)
    ensures
        s.pushed(name, below).has_path(path) <==> s.has_path(path) || (path.len() > 0 && path[0]
            == name && below.has_path(path.drop_first())),
{
    let t = s.pushed(name, below);
    if path.len() > 0 {
        if t.has_path(path) {
            let i = choose|i: int|
                0 <= i < t.nodes.len() && (#[trigger] t.nodes[i]).0 == path[0]
                    && t.nodes[i].1.has_path(path.drop_first());
            if i < s.nodes.len() {
                assert(s.nodes[i] == t.nodes[i]);
            }
        }
        if s.has_path(path) {
            let i = choose|i: int|
                0 <= i < s.nodes.len() && (#[trigger] s.nodes[i]).0 == path[0]
                    && s.nodes[i].1.has_path(path.drop_first());
            assert(t.nodes[i] == s.nodes[i]);
        }
        if path[0] == name && below.has_path(path.drop_first()) {
            assert(t.nodes[s.nodes.len() as int] == (name, below));
        }
    }
}

/// Replacing what lies below node `i` by a tree that shows that and `more`
/// adds the chains that start with the node's name and go on in `more`.
pub proof fn paths_after_grow(s: Shape, i: int, grown: Shape, more: Shape, path: Seq<Seq<char>>)
    requires
        0 <= i < s.nodes.len(),
        grown.shows_both(s.nodes[i].1, more),
    ensures
        s.regrown(i, grown).has_path(path) <==> s.has_path(path) || (path.len() > 0 && path[0]
            == s.nodes[i].0 && more.has_path(path.drop_first())),
{
    let name = s.nodes[i].0;
    let t = s.regrown(i, grown);
    if path.len() > 0 {
        let rest = path.drop_first();
        assert(grown.has_path(rest) <==> s.nodes[i].1.has_path(rest) || more.has_path(rest));
        if t.has_path(path) {
            let k = choose|k: int|
                0 <= k < t.nodes.len() && (#[trigger] t.nodes[k]).0 == path[0]
                    && t.nodes[k].1.has_path(rest);
            if k != i {
                assert(s.nodes[k] == t.nodes[k]);
            } else {
                assert(t.nodes[i] == (name, grown));
                if s.nodes[i].1.has_path(rest) {
                    assert(s.nodes[i].0 == path[0]);
                }
            }
        }
        if s.has_path(path) {
            let k = choose|k: int|
                0 <= k < s.nodes.len() && (#[trigger] s.nodes[k]).0 == path[0]
                    && s.nodes[k].1.has_path(rest);
            if k != i {
                assert(t.nodes[k] == s.nodes[k]);
            } else {
                assert(t.nodes[i] == (name, grown));
            }
        }
        if path[0] == name && more.has_path(rest) {
            assert(t.nodes[i] == (name, grown));
        }
    }
}

/// A chain shows its own beginnings, and behind its full length what the leaf
/// shows.
pub proof fn paths_of_chain(parts: Seq<Seq<char>>, leaf: Shape, path: Seq<Seq<char>>)
    ensures
        Shape::chain(parts, leaf).has_path(path) <==> on_chain(parts, leaf, path),
    decreases parts.len(),
{
    let c = Shape::chain(parts, leaf);
    if parts.len() == 0 {
        assert(path.take(0) =~= parts);
        assert(path.skip(0) =~= path);
        assert(parts.take(0) =~= parts);
    } else if path.len() == 0 {
        assert(parts.take(0) =~= path);
    } else {
        let rest = path.drop_first();
        let tail = parts.drop_first();
        paths_of_chain(tail, leaf, rest);
        assert(c.nodes[0] == (parts[0], Shape::chain(tail, leaf)));
        assert(c.has_path(path) <==> path[0] == parts[0] && Shape::chain(tail, leaf).has_path(
            rest,
        )) by {
            if c.has_path(path) {
                let i = choose|i: int|
                    0 <= i < c.nodes.len() && (#[trigger] c.nodes[i]).0 == path[0]
                        && c.nodes[i].1.has_path(rest);
                assert(i == 0);
            }
        }
        if path[0] == parts[0] {
            if on_chain(tail, leaf, rest) {
                if rest.len() <= tail.len() {
                    assert(parts.take(path.len() as int) =~= seq![parts[0]] + tail.take(
                        rest.len() as int,
                    ));
                    assert(path =~= seq![path[0]] + rest);
                } else {
                    assert(path.take(parts.len() as int) =~= seq![path[0]] + rest.take(
                        tail.len() as int,
                    ));
                    assert(parts =~= seq![parts[0]] + tail);
                    assert(path.skip(parts.len() as int) =~= rest.skip(tail.len() as int));
                }
            }
            if on_chain(parts, leaf, path) {
                if path.len() <= parts.len() {
                    assert(tail.take(rest.len() as int) =~= parts.take(
                        path.len() as int,
                    ).drop_first());
                } else {
                    assert(rest.take(tail.len() as int) =~= path.take(
                        parts.len() as int,
                    ).drop_first());
                    assert(path.skip(parts.len() as int) =~= rest.skip(tail.len() as int));
                }
            }
        } else {
            if on_chain(parts, leaf, path) {
                if path.len() <= parts.len() {
                    assert(parts.take(path.len() as int)[0] == parts[0]);
                } else {
                    assert(path.take(parts.len() as int)[0] == path[0]);
                }
            }
        }
    }
}

/// `path` lies on the chain `parts` that ends in `leaf`: it is a beginning of
/// `parts`, or all of `parts` followed by a chain that `leaf` shows.
pub open spec fn on_chain(parts: Seq<Seq<char>>, leaf: Shape, path: Seq<Seq<char>>) -> bool {
    if path.len() <= parts.len() {
        parts.take(path.len() as int) == path
    } else {
        path.take(parts.len() as int) == parts && leaf.has_path(path.skip(parts.len() as int))
    }
}

/// The strings of `first` followed by copies of those of `second`.
pub fn join_strings(first: Vec<String>, second: &Vec<String>) -> (r: Vec<String>)
    ensures
        names(r@) == names(first@) + names(second@),
{
    let mut r = first;
    let ghost start = names(r@);
    let mut i: usize = 0;
    assert(names(second@).take(0) =~= Seq::empty());
    assert(start + Seq::<Seq<char>>::empty() =~= start);
    while i < second.len()
        invariant
            i <= second.len(),
            names(r@) == start + names(second@).take(i as int),
        decreases second.len() - i,
    {
        let ghost now = names(r@);
        r.push(second[i].clone());
        proof {
            assert(names(r@) =~= now.push(second@[i as int]@));
            assert(names(second@).take(i + 1) =~= names(second@).take(i as int).push(
                second@[i as int]@,
            ));
        }
        i += 1;
    }
    assert(names(second@).take(second.len() as int) =~= names(second@));
    r
}

/// Merges `other` into `dict`, name by name in the order of `other`. Where
/// `dict` has the name and both hold a tree of names under it, the two are
/// merged in the same way; where both hold a list, the list of `other` is
/// added behind that of `dict`; in every other case what `other` holds takes
/// the place of what `dict` held. A name that only `other` has is added
/// behind the names of `dict`.
///
/// For trees of names only this means: afterwards `dict` shows what it
/// showed before and what `other` shows, and names that were unique in both
/// stay unique.
pub fn tree_merge(dict: &mut Tree, other: &Tree)
    ensures
        final(dict).doc() == merged(old(dict).doc(), other.doc()),
        old(dict).plain() && other.plain() ==> final(dict).plain() && final(dict).shape().shows_both(
            old(dict).shape(),
            other.shape(),
        ),
        old(dict).plain() && other.plain() && old(dict).shape().unique() && other.shape().unique()
            ==> final(dict).shape().unique(),
    decreases other,
{
    let ghost start = dict.shape();
    let ghost added = other.shape();
    let ghost ours = dict.doc();
    let ghost theirs = other.doc();
    let ghost new = Item::Object(theirs);
    let ghost both = dict.plain() && other.plain();
    let mut j: usize = 0;
    assert(added.first(0).nodes =~= Seq::empty());
    while j < other.nodes.len()
        invariant
            j <= other.nodes.len(),
            added == other.shape(),
            theirs == other.doc(),
            new == Item::Object(theirs),
            both ==> other.plain(),
            dict.doc() == merged_upto(ours, new, j as nat),
            both ==> dict.plain() && dict.shape().shows_both(start, added.first(j as int)),
            both && start.unique() && added.unique() ==> dict.shape().unique(),
        decreases other.nodes.len() - j,
    {
        let ghost before = dict.shape();
        let ghost before_doc = dict.doc();
        let ghost before_nodes = dict.nodes@;
        let ghost done = added.first(j as int);
        let ghost next = added.first(j + 1);
        let ghost name = other.nodes@[j as int].name@;
        let ghost below = other.nodes@[j as int].subtree.shape();
        let ghost entry = theirs[j as int];
        proof {
            assert(next.nodes =~= done.nodes.push((name, below)));
            assert(next == done.pushed(name, below));
            assert(entry == (
                name,
                item_of(other.nodes@[j as int].kind, other.nodes@[j as int].subtree.doc()),
            ));
            if both {
                assert(other.nodes@[j as int].kind is Object);
                assert(other.nodes@[j as int].subtree.plain());
            }
        }
        match dict.position(&other.nodes[j].name) {
            Some(i) => {
                proof {
                    index_of_spec(before.nodes, name);
                    assert(before_doc[i as int] == (
                        name,
                        item_of(before_nodes[i as int].kind, before_nodes[i as int].subtree.doc()),
                    ));
                    if both {
                        assert(before_nodes[i as int].kind is Object);
                        assert(before_nodes[i as int].subtree.plain());
                    }
                }
                let mut node = dict.nodes.remove(i);
                let ghost had = node.subtree.shape();
                let ghost held = before_doc[i as int].1;
                if node.kind.is_object() && other.nodes[j].kind.is_object() {
                    tree_merge(&mut node.subtree, &other.nodes[j].subtree);
                } else if node.kind.is_array() && other.nodes[j].kind.is_array() {
                    let values = join_strings(node.kind.values(), &other.nodes[j].kind.values());
                    node.kind = Kind::Array(values);
                } else {
                    node = Node {
                        name: other.nodes[j].name.clone(),
                        subtree: other.nodes[j].subtree.copy(),
                        kind: other.nodes[j].kind.copy(),
                    };
                }
                let ghost grown = node.subtree.shape();
                let ghost put = node;
                assert(item_of(put.kind, put.subtree.doc()) == joined(held, entry.1));
                assert(put.name@ == name);
                dict.nodes.insert(i, node);
                proof {
                    let after = dict.shape();
                    assert(dict.nodes@ =~= before_nodes.update(i as int, put));
                    assert(dict.doc() =~= before_doc.update(i as int, (name, joined(held, entry.1))));
                    assert(before.nodes[i as int] == (name, had));
                    assert(after.nodes =~= before.nodes.update(i as int, (name, grown)));
                    assert(after == before.regrown(i as int, grown));
                    if both {
                        assert(dict.plain()) by {
                            assert forall|k: int| 0 <= k < dict.nodes.len() implies (
                            #[trigger] dict.nodes@[k]).kind is Object
                                && dict.nodes@[k].subtree.plain() by {
                                if k != i {
                                    assert(dict.nodes@[k] == before_nodes[k]);
                                }
                            }
                        }
                        assert forall|path: Seq<Seq<char>>| #[trigger]
                            after.has_path(path) <==> start.has_path(path) || next.has_path(
                                path,
                            ) by {
                            paths_after_grow(before, i as int, grown, below, path);
                            paths_after_push(done, name, below, path);
                            assert(before.has_path(path) <==> start.has_path(path)
                                || done.has_path(path));
                        }
                    }
                    if both && start.unique() && added.unique() {
                        assert(added.nodes[j as int].1.unique());
                        assert(after.unique()) by {
                            assert forall|a: int, b: int|
                                0 <= a < b < after.nodes.len() implies (#[trigger] after.nodes[a]).0
                                != (#[trigger] after.nodes[b]).0 by {
                                assert(after.nodes[a].0 == before.nodes[a].0);
                                assert(after.nodes[b].0 == before.nodes[b].0);
                            }
                            assert forall|k: int| 0 <= k < after.nodes.len() implies (
                            #[trigger] after.nodes[k]).1.unique() by {
                                if k != i {
                                    assert(after.nodes[k] == before.nodes[k]);
                                } else {
                                    assert(before.nodes[k].1.unique());
                                }
                            }
                        }
                    }
                }
            },
            None => {
                let node = Node {
                    name: other.nodes[j].name.clone(),
                    subtree: other.nodes[j].subtree.copy(),
                    kind: other.nodes[j].kind.copy(),
                };
                let ghost put = node;
                assert(item_of(put.kind, put.subtree.doc()) == entry.1);
                dict.nodes.push(node);
                proof {
                    let after = dict.shape();
                    assert(dict.nodes@ =~= before_nodes.push(put));
                    assert(dict.doc() =~= before_doc.push(entry));
                    assert(after.nodes =~= before.nodes.push((name, below)));
                    assert(after == before.pushed(name, below));
                    if both {
                        assert(dict.plain()) by {
                            assert forall|k: int| 0 <= k < dict.nodes.len() implies (
                            #[trigger] dict.nodes@[k]).kind is Object
                                && dict.nodes@[k].subtree.plain() by {
                                if k < before_nodes.len() {
                                    assert(dict.nodes@[k] == before_nodes[k]);
                                }
                            }
                        }
                        assert forall|path: Seq<Seq<char>>| #[trigger]
                            after.has_path(path) <==> start.has_path(path) || next.has_path(
                                path,
                            ) by {
                            paths_after_push(before, name, below, path);
                            paths_after_push(done, name, below, path);
                            assert(before.has_path(path) <==> start.has_path(path)
                                || done.has_path(path));
                        }
                    }
                    if both && start.unique() && added.unique() {
                        index_of_spec(before.nodes, name);
                        assert(added.nodes[j as int].1.unique());
                        assert(after.unique()) by {
                            assert forall|a: int, b: int|
                                0 <= a < b < after.nodes.len() implies (#[trigger] after.nodes[a]).0
                                != (#[trigger] after.nodes[b]).0 by {
                                if b < before.nodes.len() {
                                    assert(before.nodes[a].0 != before.nodes[b].0);
                                } else {
                                    assert(before.nodes[a].0 != name);
                                }
                            }
                            assert forall|k: int| 0 <= k < after.nodes.len() implies (
                            #[trigger] after.nodes[k]).1.unique() by {
                                if k < before.nodes.len() {
                                    assert(after.nodes[k] == before.nodes[k]);
                                }
                            }
                        }
                    }
                }
            },
        }
        j += 1;
    }
    assert(added.first(other.nodes.len() as int).nodes =~= added.nodes);
}

} // verus!
