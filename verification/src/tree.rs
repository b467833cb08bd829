//! Syntax trees as plain values: what they hold, how a place in one is named, and how the part
//! at a place is read or exchanged.
use vstd::prelude::*;

use crate::stamp::{Marks, Stamp};
use crate::syntax_kind::SyntaxKind;

verus! {

/// A syntax tree, as contracts speak of it.
pub enum Tree {
    /// A node and its children, in text order.
    Node(SyntaxKind, Seq<Tree>),
    /// A token and its text.
    Token(SyntaxKind, Seq<char>),
}

impl Tree {
    pub open spec fn kind(self) -> SyntaxKind {
        match self {
            Tree::Node(kind, _) => kind,
            Tree::Token(kind, _) => kind,
        }
    }

    /// The children of a node; a token has none.
    pub open spec fn children(self) -> Seq<Tree> {
        match self {
            Tree::Node(_, children) => children,
            Tree::Token(_, _) => Seq::empty(),
        }
    }

    /// Whether following the child numbers of `path` from here stays inside the tree.
    pub open spec fn has(self, path: Seq<int>) -> bool
        decreases path.len(),
    {
        path.len() == 0 || {
            &&& 0 <= path[0] < self.children().len()
            &&& self.children()[path[0]].has(path.drop_first())
        }
    }

    /// The part of the tree that `path` leads to.
    pub open spec fn at(self, path: Seq<int>) -> Tree
        decreases path.len(),
    {
        if path.len() == 0 {
            self
        } else {
            self.children()[path[0]].at(path.drop_first())
        }
    }

    /// The tree with the part that `path` leads to exchanged for `new`.
    pub open spec fn put(self, path: Seq<int>, new: Tree) -> Tree
        decreases path.len(),
    {
        if path.len() == 0 {
            new
        } else {
            Tree::Node(
                self.kind(),
                self.children().update(
                    path[0],
                    self.children()[path[0]].put(path.drop_first(), new),
                ),
            )
        }
    }

    /// The text that the tree stands for.
    pub open spec fn text(self) -> Seq<char>
        decreases self,
    {
        match self {
            Tree::Node(_, children) => text_of(children),
            Tree::Token(_, text) => text,
        }
    }

    /// The tokens of the tree, and its nodes without children, in text order.
    pub open spec fn leaves(self) -> Seq<Tree>
        decreases self,
    {
        match self {
            Tree::Node(_, children) => if children.len() == 0 {
                seq![self]
            } else {
                leaves_of(children)
            },
            Tree::Token(_, _) => seq![self],
        }
    }

    /// The leaves that stand before the part that `path` leads to.
    pub open spec fn leaves_before(self, path: Seq<int>) -> Seq<Tree>
        decreases path.len(),
    {
        if path.len() == 0 {
            Seq::empty()
        } else {
            leaves_of(self.children().take(path[0])) + self.children()[path[0]].leaves_before(
                path.drop_first(),
            )
        }
    }

    /// The text that stands before the part that `path` leads to.
    pub open spec fn text_before(self, path: Seq<int>) -> Seq<char>
        decreases path.len(),
    {
        if path.len() == 0 {
            Seq::empty()
        } else {
            text_of(self.children().take(path[0])) + self.children()[path[0]].text_before(
                path.drop_first(),
            )
        }
    }
}

/// The texts of `trees`, one after the other.
pub open spec fn text_of(trees: Seq<Tree>) -> Seq<char>
    decreases trees,
{
    if trees.len() == 0 {
        Seq::empty()
    } else {
        text_of(trees.drop_last()) + trees.last().text()
    }
}

/// The leaves of `trees`, one tree after the other.
pub open spec fn leaves_of(trees: Seq<Tree>) -> Seq<Tree>
    decreases trees,
{
    if trees.len() == 0 {
        Seq::empty()
    } else {
        leaves_of(trees.drop_last()) + trees.last().leaves()
    }
}

/// The place of the first tree from `from` on that `wanted` holds of, or the number of trees where
/// there is none.
pub open spec fn first(trees: Seq<Tree>, from: int, wanted: spec_fn(Tree) -> bool) -> int
    decreases trees.len() - from,
{
    if from >= trees.len() {
        trees.len() as int
    } else if wanted(trees[from]) {
        from
    } else {
        first(trees, from + 1, wanted)
    }
}

/// The place of the last tree before `to` that `wanted` holds of, or -1 where there is none.
pub open spec fn last(trees: Seq<Tree>, to: int, wanted: spec_fn(Tree) -> bool) -> int
    decreases to,
{
    if to <= 0 {
        -1
    } else if wanted(trees[to - 1]) {
        to - 1
    } else {
        last(trees, to - 1, wanted)
    }
}

/// Trees of one kind.
pub open spec fn of_kind(kind: SyntaxKind) -> spec_fn(Tree) -> bool {
    |tree: Tree| tree.kind() == kind
}

/// `first` finds what its description says.
pub(crate) proof fn first_is(trees: Seq<Tree>, from: int, wanted: spec_fn(Tree) -> bool, i: int)
    requires
        0 <= from <= i <= trees.len(),
        forall|j: int| from <= j < i ==> !wanted(#[trigger] trees[j]),
        i < trees.len() ==> wanted(trees[i]),
    ensures
        first(trees, from, wanted) == i,
    decreases i - from,
{
    if from < i {
        first_is(trees, from + 1, wanted, i);
    }
}

pub(crate) proof fn first_bounds(trees: Seq<Tree>, from: int, wanted: spec_fn(Tree) -> bool)
    requires
        0 <= from <= trees.len(),
    ensures
        from <= first(trees, from, wanted) <= trees.len(),
        forall|j: int|
            from <= j < first(trees, from, wanted) ==> !wanted(#[trigger] trees[j]),
        first(trees, from, wanted) < trees.len() ==> wanted(
            trees[first(trees, from, wanted)],
        ),
    decreases trees.len() - from,
{
    if from < trees.len() && !wanted(trees[from]) {
        first_bounds(trees, from + 1, wanted);
    }
}

/// `last` finds what its description says.
pub(crate) proof fn last_is(trees: Seq<Tree>, to: int, wanted: spec_fn(Tree) -> bool, i: int)
    requires
        -1 <= i < to <= trees.len(),
        forall|j: int| i < j < to ==> !wanted(#[trigger] trees[j]),
        i >= 0 ==> wanted(trees[i]),
    ensures
        last(trees, to, wanted) == i,
    decreases to - i,
{
    if i < to - 1 {
        last_is(trees, to - 1, wanted, i);
    }
}

pub(crate) proof fn last_bounds(trees: Seq<Tree>, to: int, wanted: spec_fn(Tree) -> bool)
    requires
        0 <= to <= trees.len(),
    ensures
        -1 <= last(trees, to, wanted) < to || last(trees, to, wanted) == -1,
        forall|j: int|
            last(trees, to, wanted) < j < to ==> !wanted(#[trigger] trees[j]),
        last(trees, to, wanted) >= 0 ==> wanted(trees[last(trees, to, wanted)]),
    decreases to,
{
    if to > 0 && !wanted(trees[to - 1]) {
        last_bounds(trees, to - 1, wanted);
    }
}

/// Following `p` and then `q` is following them joined.
pub(crate) proof fn path_join(tree: Tree, p: Seq<int>, q: Seq<int>)
    ensures
        tree.has(p + q) <==> tree.has(p) && tree.at(p).has(q),
        tree.at(p + q) == tree.at(p).at(q),
        tree.leaves_before(p + q) == tree.leaves_before(p) + tree.at(p).leaves_before(q),
    decreases p.len(),
{
    if p.len() == 0 {
        assert(p + q =~= q);
        assert(tree.leaves_before(p) + tree.at(p).leaves_before(q) =~= tree.leaves_before(q));
    } else {
        assert((p + q).drop_first() =~= p.drop_first() + q);
        path_join(tree.children()[p[0]], p.drop_first(), q);
        assert(tree.leaves_before(p + q) =~= tree.leaves_before(p) + tree.at(p).leaves_before(q));
    }
}

/// One step further along a path.
pub(crate) proof fn path_step(tree: Tree, p: Seq<int>, i: int)
    ensures
        tree.has(p.push(i)) <==> tree.has(p) && 0 <= i < tree.at(p).children().len(),
        tree.at(p.push(i)) == tree.at(p).children()[i],
        tree.leaves_before(p.push(i)) == tree.leaves_before(p) + leaves_of(
            tree.at(p).children().take(i),
        ),
{
    let q = seq![i];
    path_join(tree, p, q);
    assert(p + q =~= p.push(i));
    let part = tree.at(p);
    assert(q.drop_first() =~= Seq::<int>::empty());
    assert(part.at(q) == part.children()[i].at(q.drop_first()));
    assert(part.children()[i].at(q.drop_first()) == part.children()[i]);
    assert(part.children()[i].has(q.drop_first()));
    assert(part.has(q) <==> 0 <= i < part.children().len());
    assert(part.children()[i].leaves_before(q.drop_first()) == Seq::<Tree>::empty());
    assert(part.leaves_before(q) =~= leaves_of(part.children().take(i)));
}

/// What stands at a place after an exchange there, and what stands before it.
pub(crate) proof fn put_at(tree: Tree, p: Seq<int>, new: Tree)
    requires
        tree.has(p),
    ensures
        tree.put(p, new).has(p),
        tree.put(p, new).at(p) == new,
        tree.put(p, new).leaves_before(p) == tree.leaves_before(p),
    decreases p.len(),
{
    if p.len() > 0 {
        let child = tree.children()[p[0]];
        put_at(child, p.drop_first(), new);
        let changed = tree.put(p, new);
        assert(changed.children() == tree.children().update(p[0], child.put(p.drop_first(), new)));
        assert(changed.children().take(p[0]) =~= tree.children().take(p[0]));
    }
}

/// Exchanging a part for itself changes nothing.
pub(crate) proof fn put_same(tree: Tree, p: Seq<int>)
    requires
        tree.has(p),
    ensures
        tree.put(p, tree.at(p)) == tree,
    decreases p.len(),
{
    if p.len() > 0 {
        put_same(tree.children()[p[0]], p.drop_first());
        assert(tree.put(p, tree.at(p))->Node_1 =~= tree.children());
    }
}

/// Of two exchanges at one place the second stands.
pub(crate) proof fn put_twice(tree: Tree, p: Seq<int>, a: Tree, b: Tree)
    requires
        tree.has(p),
    ensures
        tree.put(p, a).put(p, b) == tree.put(p, b),
    decreases p.len(),
{
    if p.len() > 0 {
        put_twice(tree.children()[p[0]], p.drop_first(), a, b);
        assert(tree.put(p, a).put(p, b)->Node_1 =~= tree.put(p, b)->Node_1);
    }
}

/// Whether neither of two paths leads to a part of what the other leads to.
pub open spec fn part_ways(p: Seq<int>, q: Seq<int>) -> bool {
    exists|d: int| 0 <= d < p.len() && d < q.len() && #[trigger] p[d] != #[trigger] q[d]
}

/// An exchange leaves what stands elsewhere.
pub(crate) proof fn put_elsewhere(tree: Tree, p: Seq<int>, new: Tree, q: Seq<int>)
    requires
        tree.has(p),
        tree.has(q),
        part_ways(p, q),
    ensures
        tree.put(p, new).has(q),
        tree.put(p, new).at(q) == tree.at(q),
    decreases p.len(),
{
    let d = choose|d: int|
        0 <= d < p.len() && d < q.len() && #[trigger] p[d] != #[trigger] q[d];
    if p[0] == q[0] {
        assert(p.drop_first()[d - 1] != q.drop_first()[d - 1]);
        put_elsewhere(tree.children()[p[0]], p.drop_first(), new, q.drop_first());
    }
}

/// The way to the first leaf of a tree.
pub open spec fn leftmost(tree: Tree) -> Seq<int>
    decreases tree,
{
    match tree {
        Tree::Node(_, children) => if children.len() == 0 {
            Seq::empty()
        } else {
            seq![0int] + leftmost(children[0])
        },
        Tree::Token(_, _) => Seq::empty(),
    }
}

/// The way to the last leaf of a tree.
pub open spec fn rightmost(tree: Tree) -> Seq<int>
    decreases tree,
{
    match tree {
        Tree::Node(_, children) => if children.len() == 0 {
            Seq::empty()
        } else {
            seq![children.len() - 1] + rightmost(children[children.len() - 1])
        },
        Tree::Token(_, _) => Seq::empty(),
    }
}

/// The nearest part that ends where the part at `path` begins: the child before it, or before the
/// nearest of its parents that is not a first child.
pub open spec fn before(path: Seq<int>) -> Option<Seq<int>>
    decreases path.len(),
{
    if path.len() == 0 {
        None
    } else if path.last() > 0 {
        Some(path.drop_last().push(path.last() - 1))
    } else {
        before(path.drop_last())
    }
}

/// The nearest part that begins where the part at `path` ends: the child after it, or after the
/// nearest of its parents that is not a last child.
pub open spec fn after(tree: Tree, path: Seq<int>) -> Option<Seq<int>>
    decreases path.len(),
{
    if path.len() == 0 {
        None
    } else if path.last() + 1 < tree.at(path.drop_last()).children().len() {
        Some(path.drop_last().push(path.last() + 1))
    } else {
        after(tree, path.drop_last())
    }
}

/// Every tree has a leaf.
pub(crate) proof fn leaves_not_empty(tree: Tree)
    ensures
        tree.leaves().len() > 0,
    decreases tree,
{
    if let Tree::Node(_, children) = tree {
        if children.len() > 0 {
            leaves_not_empty(children.last());
        }
    }
}

pub(crate) proof fn leaves_of_first(trees: Seq<Tree>)
    requires
        trees.len() > 0,
    ensures
        leaves_of(trees).len() > 0,
        leaves_of(trees)[0] == trees[0].leaves()[0],
    decreases trees.len(),
{
    leaves_not_empty(trees.last());
    if trees.len() == 1 {
        assert(trees.drop_last() =~= Seq::<Tree>::empty());
        assert(leaves_of(trees.drop_last()) =~= Seq::<Tree>::empty());
    } else {
        leaves_of_first(trees.drop_last());
    }
}

/// `leftmost` leads to the first leaf, with no leaf before it.
pub(crate) proof fn leftmost_leads(tree: Tree)
    ensures
        tree.has(leftmost(tree)),
        tree.at(leftmost(tree)) == tree.leaves()[0],
        tree.leaves_before(leftmost(tree)) == Seq::<Tree>::empty(),
    decreases tree,
{
    if let Tree::Node(_, children) = tree {
        if children.len() > 0 {
            leftmost_leads(children[0]);
            let p = leftmost(tree);
            assert(p.drop_first() =~= leftmost(children[0]));
            leaves_of_first(children);
            assert(children.take(0) =~= Seq::<Tree>::empty());
            assert(tree.leaves_before(p) =~= Seq::<Tree>::empty());
        }
    }
}

/// `rightmost` leads to the last leaf, with all other leaves before it.
pub(crate) proof fn rightmost_leads(tree: Tree)
    ensures
        tree.has(rightmost(tree)),
        tree.at(rightmost(tree)) == tree.leaves().last(),
        tree.leaves_before(rightmost(tree)) == tree.leaves().drop_last(),
    decreases tree,
{
    leaves_not_empty(tree);
    if let Tree::Node(_, children) = tree {
        if children.len() > 0 {
            let child = children[children.len() - 1];
            rightmost_leads(child);
            leaves_not_empty(child);
            let p = rightmost(tree);
            assert(p.drop_first() =~= rightmost(child));
            assert(children.take(children.len() - 1) =~= children.drop_last());
            assert(tree.leaves_before(p) =~= tree.leaves().drop_last());
        }
    }
}

/// `before` leads to the part that holds the leaf just before.
pub(crate) proof fn before_leads(tree: Tree, path: Seq<int>)
    requires
        tree.has(path),
    ensures
        before(path) is None ==> tree.leaves_before(path) == Seq::<Tree>::empty(),
        before(path) matches Some(p) ==> {
            &&& tree.has(p)
            &&& tree.leaves_before(path) == tree.leaves_before(p) + tree.at(p).leaves()
        },
    decreases path.len(),
{
    if path.len() > 0 {
        let up = path.drop_last();
        let i = path.last();
        assert(path =~= up.push(i));
        path_step(tree, up, i);
        let children = tree.at(up).children();
        if i > 0 {
            path_step(tree, up, i - 1);
            assert(children.take(i).drop_last() =~= children.take(i - 1));
            assert(tree.leaves_before(path) =~= tree.leaves_before(up.push(i - 1)) + children[i
                - 1].leaves());
        } else {
            assert(children.take(0) =~= Seq::<Tree>::empty());
            assert(leaves_of(children.take(0)) =~= Seq::<Tree>::empty());
            assert(tree.leaves_before(path) =~= tree.leaves_before(up));
            before_leads(tree, up);
        }
    }
}

/// `after` leads into the tree.
pub(crate) proof fn after_leads(tree: Tree, path: Seq<int>)
    requires
        tree.has(path),
    ensures
        after(tree, path) matches Some(p) ==> tree.has(p),
    decreases path.len(),
{
    if path.len() > 0 {
        let up = path.drop_last();
        assert(path =~= up.push(path.last()));
        path_step(tree, up, path.last());
        path_step(tree, up, path.last() + 1);
        after_leads(tree, up);
    }
}

/// A syntax tree. It owns its parts, and no part of it changes once it is built. Each node bears a
/// stamp; copies keep it.
#[derive(Debug)]
pub enum SyntaxTree {
    Node(SyntaxKind, Vec<SyntaxTree>, Stamp),
    Token(SyntaxKind, String),
}

impl View for SyntaxTree {
    type V = Tree;

    open spec fn view(&self) -> Tree
        decreases self,
    {
        match self {
            SyntaxTree::Node(kind, children, _) => Tree::Node(
                *kind,
                Seq::new(
                    children@.len(),
                    |i: int|
                        if 0 <= i < children@.len() {
                            children@[i].view()
                        } else {
                            arbitrary()
                        },
                ),
            ),
            SyntaxTree::Token(kind, text) => Tree::Token(*kind, text@),
        }
    }
}

/// The numbers of a path.
pub open spec fn steps(path: Seq<usize>) -> Seq<int> {
    Seq::new(path.len(), |i: int| path[i] as int)
}

/// A text is made of the texts of the parts.
pub(crate) proof fn text_of_contains(trees: Seq<Tree>, c: char)
    ensures
        text_of(trees).contains(c) <==> exists|i: int|
            0 <= i < trees.len() && (#[trigger] trees[i]).text().contains(c),
    decreases trees.len(),
{
    if trees.len() > 0 {
        let rest = trees.drop_last();
        text_of_contains(rest, c);
        let a = text_of(rest);
        let b = trees.last().text();
        assert(text_of(trees) == a + b);
        if (a + b).contains(c) {
            let k = choose|k: int| 0 <= k < (a + b).len() && (a + b)[k] == c;
            if k < a.len() {
                assert(a[k] == c);
                let i = choose|i: int|
                    0 <= i < rest.len() && (#[trigger] rest[i]).text().contains(c);
                assert(trees[i].text().contains(c));
            } else {
                assert(b[k - a.len()] == c);
                assert(trees[trees.len() - 1].text().contains(c));
            }
        }
        if exists|i: int| 0 <= i < trees.len() && (#[trigger] trees[i]).text().contains(c) {
            let i = choose|i: int| 0 <= i < trees.len() && (#[trigger] trees[i]).text().contains(c);
            if i < rest.len() {
                assert(rest[i].text().contains(c));
                let k = choose|k: int| 0 <= k < a.len() && a[k] == c;
                assert((a + b)[k] == c);
            } else {
                let k = choose|k: int| 0 <= k < b.len() && b[k] == c;
                assert((a + b)[a.len() + k] == c);
            }
        }
    }
}

/// What the trees in a sequence hold.
pub open spec fn views(trees: Seq<SyntaxTree>) -> Seq<Tree> {
    Seq::new(trees.len(), |i: int| trees[i]@)
}

/// The stamps of the trees in a sequence.
pub open spec fn all_marks(trees: Seq<SyntaxTree>) -> Seq<Marks> {
    Seq::new(trees.len(), |i: int| trees[i].marks())
}

impl SyntaxTree {
    /// The stamps of the nodes of the tree.
    pub open spec fn marks(&self) -> Marks
        decreases self,
    {
        match self {
            SyntaxTree::Node(_, children, stamp) => Marks::Node(
                stamp.number(),
                Seq::new(
                    children@.len(),
                    |i: int|
                        if 0 <= i < children@.len() {
                            children@[i].marks()
                        } else {
                            arbitrary()
                        },
                ),
            ),
            SyntaxTree::Token(_, _) => Marks::Token,
        }
    }

    pub(crate) proof fn view_of_node(kind: SyntaxKind, children: Vec<SyntaxTree>, stamp: Stamp)
        ensures
            SyntaxTree::Node(kind, children, stamp)@ == Tree::Node(kind, views(children@)),
            SyntaxTree::Node(kind, children, stamp).marks() == Marks::Node(
                stamp.number(),
                all_marks(children@),
            ),
    {
        reveal_with_fuel(<SyntaxTree as View>::view, 2);
        reveal_with_fuel(SyntaxTree::marks, 2);
        let node = SyntaxTree::Node(kind, children, stamp);
        assert(node@->Node_1 =~= views(children@));
        assert(node.marks()->Node_1 =~= all_marks(children@));
    }

    /// A new node with the children `children`.
    pub fn node(kind: SyntaxKind, children: Vec<SyntaxTree>) -> (r: SyntaxTree)
        ensures
            r@ == Tree::Node(kind, views(children@)),
            r.marks().children() == all_marks(children@),
    {
        let stamp = Stamp::new();
        proof {
            Self::view_of_node(kind, children, stamp);
        }
        SyntaxTree::Node(kind, children, stamp)
    }

    pub fn kind(&self) -> (r: SyntaxKind)
        ensures
            r == self@.kind(),
    {
        match self {
            SyntaxTree::Node(kind, _, _) => *kind,
            SyntaxTree::Token(kind, _) => *kind,
        }
    }

    /// Whether two trees look the same.
    pub fn same(&self, other: &SyntaxTree) -> (r: bool)
        ensures
            r == (self@ == other@),
        decreases self,
    {
        match (self, other) {
            (
                SyntaxTree::Node(kind, children, stamp),
                SyntaxTree::Node(other_kind, other_children, other_stamp),
            ) => {
                proof {
                    Self::view_of_node(*kind, *children, *stamp);
                    Self::view_of_node(*other_kind, *other_children, *other_stamp);
                }
                let ghost a = views(children@);
                let ghost b = views(other_children@);
                if *kind != *other_kind || children.len() != other_children.len() {
                    assert(*kind == *other_kind ==> a.len() != b.len());
                    return false;
                }
                let mut i: usize = 0;
                while i < children.len()
                    invariant
                        self == SyntaxTree::Node(*kind, *children, *stamp),
                        self@ == Tree::Node(*kind, a),
                        other@ == Tree::Node(*other_kind, b),
                        a == views(children@),
                        b == views(other_children@),
                        i <= children.len() == other_children.len(),
                        forall|j: int| 0 <= j < i ==> a[j] == b[j],
                    decreases children.len() - i,
                {
                    assert(decreases_to!(self => self->Node_1));
                    assert(decreases_to!(self->Node_1 => self->Node_1@));
                    assert(decreases_to!(self->Node_1@ => self->Node_1@[i as int]));
                    if !children[i].same(&other_children[i]) {
                        assert(a[i as int] != b[i as int]);
                        return false;
                    }
                    i += 1;
                }
                assert(a =~= b);
                true
            },
            (SyntaxTree::Token(kind, text), SyntaxTree::Token(other_kind, other_text)) => {
                *kind == *other_kind && *text == *other_text
            },
            _ => false,
        }
    }

    pub fn is_node(&self) -> (r: bool)
        ensures
            r == (self@ is Node),
    {
        match self {
            SyntaxTree::Node(_, _, _) => true,
            SyntaxTree::Token(_, _) => false,
        }
    }

    /// The text that the tree stands for.
    pub fn text(&self) -> (r: String)
        ensures
            r@ == self@.text(),
        decreases self,
    {
        match self {
            SyntaxTree::Node(kind, children, stamp) => {
                proof {
                    Self::view_of_node(*kind, *children, *stamp);
                }
                let mut text = String::new();
                let mut i: usize = 0;
                assert(views(children@).take(0) =~= Seq::<Tree>::empty());
                while i < children.len()
                    invariant
                        self == SyntaxTree::Node(*kind, *children, *stamp),
                        i <= children.len(),
                        text@ == text_of(views(children@).take(i as int)),
                    decreases children.len() - i,
                {
                    assert(decreases_to!(self => self->Node_1));
                    assert(decreases_to!(self->Node_1 => self->Node_1@));
                    assert(decreases_to!(self->Node_1@ => self->Node_1@[i as int]));
                    text.append(children[i].text().as_str());
                    assert(views(children@).take(i + 1).drop_last() =~= views(children@).take(
                        i as int,
                    ));
                    i += 1;
                }
                assert(views(children@).take(i as int) =~= views(children@));
                text
            },
            SyntaxTree::Token(_, text) => text.clone(),
        }
    }

    /// Whether `c` occurs in the text of the tree.
    pub fn contains_char(&self, c: char) -> (r: bool)
        ensures
            r == self@.text().contains(c),
        decreases self,
    {
        match self {
            SyntaxTree::Node(kind, children, stamp) => {
                proof {
                    Self::view_of_node(*kind, *children, *stamp);
                }
                let mut i: usize = 0;
                while i < children.len()
                    invariant
                        self == SyntaxTree::Node(*kind, *children, *stamp),
                        self@ == Tree::Node(*kind, views(children@)),
                        i <= children.len(),
                        forall|j: int|
                            0 <= j < i ==> !(#[trigger] children@[j])@.text().contains(c),
                    decreases children.len() - i,
                {
                    assert(decreases_to!(self => self->Node_1));
                    assert(decreases_to!(self->Node_1 => self->Node_1@));
                    assert(decreases_to!(self->Node_1@ => self->Node_1@[i as int]));
                    if children[i].contains_char(c) {
                        proof {
                            assert(views(children@)[i as int].text().contains(c));
                            text_of_contains(views(children@), c);
                        }
                        return true;
                    }
                    i += 1;
                }
                proof {
                    text_of_contains(views(children@), c);
                }
                false
            },
            SyntaxTree::Token(_, text) => crate::text::contains(text.as_str(), c),
        }
    }

    /// The same tree, with new nodes.
    pub(crate) fn renewed(&self) -> (r: SyntaxTree)
        ensures
            r@ == self@,
        decreases self,
    {
        match self {
            SyntaxTree::Node(kind, children, stamp) => {
                let mut copy: Vec<SyntaxTree> = Vec::new();
                let mut i: usize = 0;
                while i < children.len()
                    invariant
                        self == SyntaxTree::Node(*kind, *children, *stamp),
                        i <= children.len(),
                        copy.len() == i,
                        forall|j: int| 0 <= j < i ==> #[trigger] copy@[j]@ == children@[j]@,
                    decreases children.len() - i,
                {
                    assert(decreases_to!(self => self->Node_1));
                    assert(decreases_to!(self->Node_1 => self->Node_1@));
                    assert(decreases_to!(self->Node_1@ => self->Node_1@[i as int]));
                    copy.push(children[i].renewed());
                    i += 1;
                }
                proof {
                    Self::view_of_node(*kind, *children, *stamp);
                    assert(views(copy@) =~= views(children@));
                }
                SyntaxTree::node(*kind, copy)
            },
            SyntaxTree::Token(kind, text) => SyntaxTree::Token(*kind, text.clone()),
        }
    }

    /// The tree with the part that `path` leads to, from its step `depth` on, exchanged for `new`.
    pub(crate) fn put(&self, path: &Vec<usize>, depth: usize, new: SyntaxTree) -> (r: SyntaxTree)
        requires
            depth <= path.len(),
            self@.has(steps(path@).skip(depth as int)),
        ensures
            r@ == self@.put(steps(path@).skip(depth as int), new@),
            r.marks().at(steps(path@).skip(depth as int)) == new.marks(),
            forall|p: Seq<int>|
                self@.has(p) && part_ways(steps(path@).skip(depth as int), p)
                    ==> #[trigger] r.marks().at(p) == self.marks().at(p),
        decreases path.len() - depth,
    {
        let ghost rest = steps(path@).skip(depth as int);
        if depth == path.len() {
            return new;
        }
        assert(rest.drop_first() =~= steps(path@).skip(depth + 1));
        match self {
            SyntaxTree::Node(kind, children, stamp) => {
                proof {
                    Self::view_of_node(*kind, *children, *stamp);
                }
                let step = path[depth];
                let mut changed: Vec<SyntaxTree> = Vec::new();
                let mut i: usize = 0;
                while i < step
                    invariant
                        i <= step < children.len(),
                        changed.len() == i,
                        forall|j: int|
                            0 <= j < i ==> (#[trigger] changed@[j])@ == children@[j]@
                                && changed@[j].marks() == children@[j].marks(),
                    decreases step - i,
                {
                    changed.push(children[i].clone());
                    i += 1;
                }
                changed.push(children[step].put(path, depth + 1, new));
                i = step + 1;
                let ghost part = changed@[step as int]@;
                let ghost part_marks = changed@[step as int].marks();
                assert(forall|p: Seq<int>|
                    children@[step as int]@.has(p) && part_ways(rest.drop_first(), p)
                        ==> #[trigger] part_marks.at(p) == children@[step as int].marks().at(p));
                while i < children.len()
                    invariant
                        step < i <= children.len(),
                        changed.len() == i,
                        changed@[step as int]@ == part,
                        changed@[step as int].marks() == part_marks,
                        forall|j: int|
                            0 <= j < i && j != step ==> (#[trigger] changed@[j])@
                                == children@[j]@ && changed@[j].marks() == children@[j].marks(),
                    decreases children.len() - i,
                {
                    changed.push(children[i].clone());
                    i += 1;
                }
                assert(views(changed@) =~= views(children@).update(step as int, part));
                let r = SyntaxTree::node(*kind, changed);
                proof {
                    assert(r.marks().children()[step as int] == part_marks);
                    assert forall|p: Seq<int>| self@.has(p) && part_ways(rest, p) implies
                        #[trigger] r.marks().at(p) == self.marks().at(p) by {
                        let here = self.marks().children();
                        let there = r.marks().children();
                        assert(here == all_marks(children@));
                        assert(0 <= p[0] < children.len());
                        if p[0] == step {
                            let d = choose|d: int|
                                0 <= d < rest.len() && d < p.len() && #[trigger] rest[d]
                                    != #[trigger] p[d];
                            assert(rest.drop_first()[d - 1] != p.drop_first()[d - 1]);
                            assert(part_ways(rest.drop_first(), p.drop_first()));
                            assert(children@[step as int]@.has(p.drop_first()));
                            assert(there[step as int] == part_marks);
                            assert(here[step as int] == children@[step as int].marks());
                            let rest = p.drop_first();
                            assert(part_marks.at(rest) == children@[step as int].marks().at(rest));
                        } else {
                            assert(changed@[p[0]].marks() == children@[p[0]].marks());
                            assert(there[p[0]] == here[p[0]]);
                        }
                    }
                }
                r
            },
            SyntaxTree::Token(_, _) => new,
        }
    }
}

impl Clone for SyntaxTree {
    /// The copy keeps the stamps.
    fn clone(&self) -> (r: Self)
        ensures
            r@ == self@,
            r.marks() == self.marks(),
        decreases self,
    {
        match self {
            SyntaxTree::Node(kind, children, stamp) => {
                let mut copy: Vec<SyntaxTree> = Vec::new();
                let mut i: usize = 0;
                while i < children.len()
                    invariant
                        self == SyntaxTree::Node(*kind, *children, *stamp),
                        i <= children.len(),
                        copy.len() == i,
                        forall|j: int|
                            0 <= j < i ==> #[trigger] copy@[j]@ == children@[j]@
                                && copy@[j].marks() == children@[j].marks(),
                    decreases children.len() - i,
                {
                    assert(decreases_to!(self => self->Node_1));
                    assert(decreases_to!(self->Node_1 => self->Node_1@));
                    assert(decreases_to!(self->Node_1@ => self->Node_1@[i as int]));
                    copy.push(children[i].clone());
                    i += 1;
                }
                let kept = stamp.clone();
                proof {
                    Self::view_of_node(*kind, *children, *stamp);
                    Self::view_of_node(*kind, copy, kept);
                    assert(views(copy@) =~= views(children@));
                    assert forall|j: int| 0 <= j < copy.len() implies all_marks(copy@)[j]
                        == #[trigger] all_marks(children@)[j] by {
                        assert(copy@[j]@ == children@[j]@);
                    }
                    assert(all_marks(copy@) =~= all_marks(children@));
                }
                SyntaxTree::Node(*kind, copy, kept)
            },
            SyntaxTree::Token(kind, text) => SyntaxTree::Token(*kind, text.clone()),
        }
    }
}

} // verus!
