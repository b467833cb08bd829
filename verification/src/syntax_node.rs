//! Places in syntax trees: nodes, tokens and the moves between them.
use std::rc::Rc;
use vstd::pervasive::unreached;
use vstd::prelude::*;
use vstd::utf8::encode_utf8;

use crate::stamp::{share, Marks};
use crate::syntax_kind::SyntaxKind;
use crate::tree;
use crate::tree::{SyntaxTree, Tree};

verus! {

/// A place in a tree: the whole tree, and the child numbers that lead to the place from its root.
pub struct Place {
    pub tree: Tree,
    pub path: Seq<int>,
}

impl Place {
    /// The root of a tree.
    pub open spec fn root(tree: Tree) -> Place {
        Place { tree, path: Seq::empty() }
    }

    /// The part of the tree at this place.
    pub open spec fn here(self) -> Tree {
        self.tree.at(self.path)
    }

    pub open spec fn kind(self) -> SyntaxKind {
        self.here().kind()
    }

    pub open spec fn children(self) -> Seq<Tree> {
        self.here().children()
    }

    /// A node stands at this place.
    pub open spec fn is_node(self) -> bool {
        self.tree.has(self.path) && self.here() is Node
    }

    /// A token stands at this place.
    pub open spec fn is_token(self) -> bool {
        self.tree.has(self.path) && self.here() is Token
    }

    pub open spec fn child(self, i: int) -> Place {
        Place { tree: self.tree, path: self.path.push(i) }
    }

    pub open spec fn parent(self) -> Place {
        Place { tree: self.tree, path: self.path.drop_last() }
    }

    /// The number of this place among the children of its parent.
    pub open spec fn index(self) -> int {
        self.path.last()
    }

    pub open spec fn is_root(self) -> bool {
        self.path.len() == 0
    }

    /// Whether `self` is a child of `parent`.
    pub open spec fn is_child_of(self, parent: Place) -> bool {
        &&& self.tree == parent.tree
        &&& self.path.len() == parent.path.len() + 1
        &&& self.path.drop_last() == parent.path
    }

    /// The same place in the tree in which `new` stands at this place.
    pub open spec fn put(self, new: Tree) -> Place {
        Place { tree: self.tree.put(self.path, new), path: self.path }
    }

    /// The same place in the tree in which the node at this place has the children `children`.
    pub open spec fn with_children(self, children: Seq<Tree>) -> Place {
        self.put(Tree::Node(self.kind(), children))
    }

    /// The place of the first leaf, where that leaf is a token.
    pub open spec fn first_token(self) -> Option<Place> {
        let leaf = Place { tree: self.tree, path: self.path + tree::leftmost(self.here()) };
        if leaf.here() is Token {
            Some(leaf)
        } else {
            None
        }
    }

    /// The place of the leaf before this place, where that leaf is a token.
    pub open spec fn prev_token(self) -> Option<Place> {
        match tree::before(self.path) {
            None => None,
            Some(path) => {
                let leaf = Place {
                    tree: self.tree,
                    path: path + tree::rightmost(self.tree.at(path)),
                };
                if leaf.here() is Token {
                    Some(leaf)
                } else {
                    None
                }
            },
        }
    }

    /// The place of the leaf after this place, where that leaf is a token.
    pub open spec fn next_token(self) -> Option<Place> {
        match tree::after(self.tree, self.path) {
            None => None,
            Some(path) => Place { tree: self.tree, path }.first_token(),
        }
    }

    /// The leaves from the start of the tree up to and with the first leaf at this place.
    pub open spec fn leaves_to(self) -> Seq<Tree> {
        self.tree.leaves_before(self.path).push(self.here().leaves()[0])
    }
}

/// Whether two nodes are one: they look the same, bear the same stamp, and as many bytes of text
/// stand before them. The marks are those of the trees that the two stand in.
pub open spec fn one_node(a: Place, a_marks: Marks, b: Place, b_marks: Marks) -> bool {
    &&& a.here() == b.here()
    &&& a_marks.at(a.path).number() == b_marks.at(b.path).number()
    &&& offset(a) == offset(b)
}

/// The marks of a tree after an edit of the children of the node at `place`: the node has the marks
/// `children` for its children, and every part elsewhere in the tree keeps its marks. The node
/// itself and those around it are built anew.
pub open spec fn marks_edited(
    place: Place,
    before: Marks,
    after: Marks,
    children: Seq<Marks>,
) -> bool {
    &&& after.at(place.path).children() == children
    &&& forall|p: Seq<int>|
        place.tree.has(p) && tree::part_ways(place.path, p) ==> #[trigger] after.at(p)
            == before.at(p)
}

/// The children of a node have marks.
pub(crate) proof fn child_marks_fit(node: &SyntaxNode)
    requires
        node@.is_node(),
    ensures
        node.marks().at(node@.path).children().len() == node@.children().len(),
{
    marks_fit(&*node.root, node@.path);
}

proof fn marks_fit(tree: &SyntaxTree, path: Seq<int>)
    requires
        tree@.has(path),
    ensures
        tree.marks().at(path).children().len() == tree@.at(path).children().len(),
    decreases path.len(),
{
    if let SyntaxTree::Node(kind, children, stamp) = tree {
        SyntaxTree::view_of_node(*kind, *children, *stamp);
        if path.len() > 0 {
            assert(tree.marks().children()[path[0]] == children@[path[0]].marks());
            marks_fit(&children@[path[0]], path.drop_first());
        }
    }
}

/// An edit after an edit of the children of the same node.
pub(crate) proof fn marks_edited_twice(
    place: Place,
    trees: Seq<Tree>,
    first: Marks,
    second: Marks,
    third: Marks,
    children: Seq<Marks>,
    last: Seq<Marks>,
)
    requires
        place.is_node(),
        marks_edited(place, first, second, children),
        marks_edited(place.with_children(trees), second, third, last),
    ensures
        marks_edited(place, first, third, last),
{
    assert forall|p: Seq<int>|
        place.tree.has(p) && tree::part_ways(place.path, p) implies #[trigger] third.at(p)
        == first.at(p) by {
        tree::put_elsewhere(place.tree, place.path, Tree::Node(place.kind(), trees), p);
        assert(second.at(p) == first.at(p));
    }
}

/// How many bytes of text stand before a place.
pub open spec fn offset(place: Place) -> usize {
    encode_utf8(place.tree.text_before(place.path)).len() as usize
}

/// The part of `tree` that `path` leads to.
fn descend<'a>(tree: &'a SyntaxTree, path: &Vec<usize>) -> (r: &'a SyntaxTree)
    requires
        tree@.has(tree::steps(path@)),
    ensures
        r@ == tree@.at(tree::steps(path@)),
        r.marks() == tree.marks().at(tree::steps(path@)),
{
    let mut part = tree;
    let mut i: usize = 0;
    assert(tree::steps(path@).skip(0) =~= tree::steps(path@));
    while i < path.len()
        invariant
            i <= path.len(),
            part@.has(tree::steps(path@).skip(i as int)),
            part@.at(tree::steps(path@).skip(i as int)) == tree@.at(tree::steps(path@)),
            part.marks().at(tree::steps(path@).skip(i as int)) == tree.marks().at(
                tree::steps(path@),
            ),
        decreases path.len() - i,
    {
        let ghost rest = tree::steps(path@).skip(i as int);
        assert(rest.drop_first() =~= tree::steps(path@).skip(i + 1));
        match part {
            SyntaxTree::Node(kind, children, stamp) => {
                proof {
                    SyntaxTree::view_of_node(*kind, *children, *stamp);
                }
                part = &children[path[i]];
            },
            SyntaxTree::Token(_, _) => {},
        }
        i += 1;
    }
    assert(tree::steps(path@).skip(path.len() as int) =~= Seq::<int>::empty());
    part
}

/// The text that stands before the part of `tree` that `path` leads to.
fn text_before(tree: &SyntaxTree, path: &Vec<usize>) -> (r: String)
    requires
        tree@.has(tree::steps(path@)),
    ensures
        r@ == tree@.text_before(tree::steps(path@)),
{
    let mut part = tree;
    let mut text = String::new();
    let mut i: usize = 0;
    let ghost all = tree@.text_before(tree::steps(path@));
    assert(tree::steps(path@).skip(0) =~= tree::steps(path@));
    assert(text@ + all =~= all);
    while i < path.len()
        invariant
            i <= path.len(),
            part@.has(tree::steps(path@).skip(i as int)),
            text@ + part@.text_before(tree::steps(path@).skip(i as int)) == all,
        decreases path.len() - i,
    {
        let ghost rest = tree::steps(path@).skip(i as int);
        assert(rest.drop_first() =~= tree::steps(path@).skip(i + 1));
        match part {
            SyntaxTree::Node(kind, children, stamp) => {
                proof {
                    SyntaxTree::view_of_node(*kind, *children, *stamp);
                }
                let ghost before = text@;
                let ghost trees = tree::views(children@);
                let mut k: usize = 0;
                assert(trees.take(0) =~= Seq::<Tree>::empty());
                assert(before + tree::text_of(trees.take(0)) =~= before);
                while k < path[i]
                    invariant
                        i < path.len(),
                        k <= path@[i as int] < children.len(),
                        trees == tree::views(children@),
                        text@ == before + tree::text_of(trees.take(k as int)),
                    decreases path@[i as int] - k,
                {
                    text.append(children[k].text().as_str());
                    k += 1;
                    assert(trees.take(k as int).drop_last() =~= trees.take(k - 1));
                    assert(text@ =~= before + tree::text_of(trees.take(k as int)));
                }
                part = &children[path[i]];
                assert(before + (tree::text_of(trees.take(k as int)) + part@.text_before(
                    rest.drop_first(),
                )) =~= text@ + part@.text_before(rest.drop_first()));
            },
            SyntaxTree::Token(_, _) => {},
        }
        i += 1;
    }
    assert(tree::steps(path@).skip(path.len() as int) =~= Seq::<int>::empty());
    assert(text@ + Seq::<char>::empty() =~= text@);
    text
}

/// A node or a token.
#[derive(Debug)]
pub enum NodeOrToken<N, T> {
    Node(N),
    Token(T),
}

/// A node of a syntax tree, together with the tree that it stands in.
#[derive(Debug)]
pub struct SyntaxNode {
    root: Rc<SyntaxTree>,
    path: Vec<usize>,
}

/// A token of a syntax tree, together with the tree that it stands in.
#[derive(Debug)]
pub struct SyntaxToken {
    root: Rc<SyntaxTree>,
    path: Vec<usize>,
}

/// A node or a token of a syntax tree.
pub type SyntaxElement = NodeOrToken<SyntaxNode, SyntaxToken>;

impl View for SyntaxNode {
    type V = Place;

    closed spec fn view(&self) -> Place {
        Place { tree: self.root@, path: tree::steps(self.path@) }
    }
}

impl View for SyntaxToken {
    type V = Place;

    closed spec fn view(&self) -> Place {
        Place { tree: self.root@, path: tree::steps(self.path@) }
    }
}

impl View for NodeOrToken<SyntaxNode, SyntaxToken> {
    type V = Place;

    open spec fn view(&self) -> Place {
        match self {
            NodeOrToken::Node(node) => node@,
            NodeOrToken::Token(token) => token@,
        }
    }
}

/// The marks of the parts of trees at the places of `elements`.
pub open spec fn part_marks(elements: Seq<SyntaxElement>) -> Seq<Marks> {
    Seq::new(elements.len(), |i: int| elements[i].marks())
}

/// The parts of trees at the places of `elements`.
pub open spec fn parts(elements: Seq<SyntaxElement>) -> Seq<Tree> {
    Seq::new(elements.len(), |i: int| elements[i]@.here())
}

impl NodeOrToken<SyntaxNode, SyntaxToken> {
    /// The marks of the part of the tree at this element.
    pub open spec fn marks(self) -> Marks {
        match self {
            NodeOrToken::Node(node) => node.marks().at(node@.path),
            NodeOrToken::Token(_) => Marks::Token,
        }
    }

    /// A node stands where a node is named, and a token where a token is.
    pub open spec fn fits(self) -> bool {
        match self {
            NodeOrToken::Node(node) => node@.is_node(),
            NodeOrToken::Token(token) => token@.is_token(),
        }
    }

    /// The element at `path`.
    fn at(root: &Rc<SyntaxTree>, path: Vec<usize>) -> (r: SyntaxElement)
        requires
            root@.has(tree::steps(path@)),
        ensures
            r@ == (Place { tree: root@, path: tree::steps(path@) }),
            r.fits(),
            r matches NodeOrToken::Node(node) ==> node.marks() == root.marks(),
    {
        let root = share(root);
        if descend(&*root, &path).is_node() {
            NodeOrToken::Node(SyntaxNode { root, path })
        } else {
            NodeOrToken::Token(SyntaxToken { root, path })
        }
    }

    /// The part of the tree at this element.
    pub fn green(&self) -> (r: &SyntaxTree)
        ensures
            r@ == self@.here(),
            r.marks() == self.marks(),
            self.fits(),
    {
        match self {
            NodeOrToken::Node(node) => node.green(),
            NodeOrToken::Token(token) => token.green(),
        }
    }

    pub fn kind(&self) -> (r: SyntaxKind)
        ensures
            r == self@.kind(),
            self.fits(),
    {
        self.green().kind()
    }

    /// The number of this element among the children of its parent.
    pub fn index(&self) -> (r: usize)
        requires
            !self@.is_root(),
        ensures
            r == self@.index(),
            self.fits(),
    {
        match self {
            NodeOrToken::Node(node) => node.index(),
            NodeOrToken::Token(token) => token.index(),
        }
    }
}

impl Clone for NodeOrToken<SyntaxNode, SyntaxToken> {
    fn clone(&self) -> (r: Self)
        ensures
            r@ == self@,
            r.marks() == self.marks(),
            r.fits(),
            self.fits(),
    {
        match self {
            NodeOrToken::Node(node) => NodeOrToken::Node(node.clone()),
            NodeOrToken::Token(token) => NodeOrToken::Token(token.clone()),
        }
    }
}

/// The part above the one at `path`.
fn above(path: &Vec<usize>) -> (r: Vec<usize>)
    requires
        path.len() > 0,
    ensures
        tree::steps(r@) == tree::steps(path@).drop_last(),
{
    let mut up = copy_path(path);
    up.pop();
    assert(tree::steps(up@) =~= tree::steps(path@).drop_last());
    up
}

fn copy_path(path: &Vec<usize>) -> (r: Vec<usize>)
    ensures
        r@ == path@,
{
    let mut copy: Vec<usize> = Vec::new();
    let mut i: usize = 0;
    while i < path.len()
        invariant
            i <= path.len(),
            copy@ == path@.take(i as int),
        decreases path.len() - i,
    {
        copy.push(path[i]);
        i += 1;
        assert(copy@ =~= path@.take(i as int));
    }
    assert(path@.take(i as int) =~= path@);
    copy
}

/// `path` and then the way to the first leaf.
fn to_leftmost(root: &SyntaxTree, path: Vec<usize>) -> (r: Vec<usize>)
    requires
        root@.has(tree::steps(path@)),
    ensures
        tree::steps(r@) == tree::steps(path@) + tree::leftmost(root@.at(tree::steps(path@))),
{
    let mut part = descend(root, &path);
    let mut way = path;
    let ghost goal = tree::steps(path@) + tree::leftmost(root@.at(tree::steps(path@)));
    loop
        invariant
            tree::steps(way@) + tree::leftmost(part@) == goal,
        ensures
            tree::steps(way@) == goal,
        decreases *part,
    {
        match part {
            SyntaxTree::Node(kind, children, stamp) => {
                proof {
                    SyntaxTree::view_of_node(*kind, *children, *stamp);
                }
                if children.len() == 0 {
                    assert(tree::steps(way@) + Seq::<int>::empty() =~= tree::steps(way@));
                    break;
                }
                let ghost so_far = tree::steps(way@);
                way.push(0);
                assert(tree::steps(way@) =~= so_far.push(0));
                assert(so_far + (seq![0int] + tree::leftmost(children@[0]@)) =~= so_far.push(0)
                    + tree::leftmost(children@[0]@));
                assert(decreases_to!(*part => part->Node_1));
                assert(decreases_to!(part->Node_1 => part->Node_1@));
                assert(decreases_to!(part->Node_1@ => part->Node_1@[0]));
                part = &children[0];
            },
            SyntaxTree::Token(_, _) => {
                assert(tree::steps(way@) + Seq::<int>::empty() =~= tree::steps(way@));
                break;
            },
        }
    }
    way
}

/// `path` and then the way to the last leaf.
fn to_rightmost(root: &SyntaxTree, path: Vec<usize>) -> (r: Vec<usize>)
    requires
        root@.has(tree::steps(path@)),
    ensures
        tree::steps(r@) == tree::steps(path@) + tree::rightmost(root@.at(tree::steps(path@))),
{
    let mut part = descend(root, &path);
    let mut way = path;
    let ghost goal = tree::steps(path@) + tree::rightmost(root@.at(tree::steps(path@)));
    loop
        invariant
            tree::steps(way@) + tree::rightmost(part@) == goal,
        ensures
            tree::steps(way@) == goal,
        decreases *part,
    {
        match part {
            SyntaxTree::Node(kind, children, stamp) => {
                proof {
                    SyntaxTree::view_of_node(*kind, *children, *stamp);
                }
                if children.len() == 0 {
                    assert(tree::steps(way@) + Seq::<int>::empty() =~= tree::steps(way@));
                    break;
                }
                let end: usize = children.len() - 1;
                let ghost so_far = tree::steps(way@);
                let ghost rest = tree::rightmost(children@[end as int]@);
                way.push(end);
                assert(tree::steps(way@) =~= so_far.push(end as int));
                assert(so_far + (seq![end as int] + rest) =~= so_far.push(end as int) + rest);
                assert(decreases_to!(*part => part->Node_1));
                assert(decreases_to!(part->Node_1 => part->Node_1@));
                assert(decreases_to!(part->Node_1@ => part->Node_1@[end as int]));
                part = &children[end];
            },
            SyntaxTree::Token(_, _) => {
                assert(tree::steps(way@) + Seq::<int>::empty() =~= tree::steps(way@));
                break;
            },
        }
    }
    way
}

/// The token at `path`, where a token stands there.
fn token_at(root: &Rc<SyntaxTree>, path: Vec<usize>) -> (r: Option<SyntaxToken>)
    requires
        root@.has(tree::steps(path@)),
    ensures
        r is Some <==> root@.at(tree::steps(path@)) is Token,
        r matches Some(token) ==> token@ == (Place { tree: root@, path: tree::steps(path@) }),
{
    match SyntaxElement::at(root, path) {
        NodeOrToken::Node(_) => None,
        NodeOrToken::Token(token) => Some(token),
    }
}

impl Clone for SyntaxNode {
    fn clone(&self) -> (r: Self)
        ensures
            r@ == self@,
            r.marks() == self.marks(),
            self@.is_node(),
    {
        proof {
            use_type_invariant(self);
        }
        SyntaxNode { root: share(&self.root), path: copy_path(&self.path) }
    }
}

impl Clone for SyntaxToken {
    fn clone(&self) -> (r: Self)
        ensures
            r@ == self@,
            self@.is_token(),
    {
        proof {
            use_type_invariant(self);
        }
        SyntaxToken { root: share(&self.root), path: copy_path(&self.path) }
    }
}

impl SyntaxNode {
    /// The stamps of the whole tree that the node stands in.
    pub closed spec fn marks(&self) -> Marks {
        self.root.marks()
    }

    /// A node stands at the place.
    #[verifier::type_invariant]
    pub open spec fn inv(self) -> bool {
        self@.is_node()
    }

    /// The root of `tree`.
    pub fn new_root(tree: SyntaxTree) -> (r: SyntaxNode)
        requires
            tree@ is Node,
        ensures
            r@ == Place::root(tree@),
            r.marks() == tree.marks(),
    {
        let root = Rc::new(tree);
        let path: Vec<usize> = Vec::new();
        assert(tree::steps(path@) =~= Seq::<int>::empty());
        SyntaxNode { root, path }
    }

    /// The part of the tree at this node.
    pub fn green(&self) -> (r: &SyntaxTree)
        ensures
            r@ == self@.here(),
            r.marks() == self.marks().at(self@.path),
            self@.is_node(),
    {
        proof {
            use_type_invariant(self);
        }
        descend(&*self.root, &self.path)
    }

    pub fn kind(&self) -> (r: SyntaxKind)
        ensures
            r == self@.kind(),
            self@.is_node(),
    {
        self.green().kind()
    }

    /// The parts of the tree that are the children of this node.
    pub fn children(&self) -> (r: &Vec<SyntaxTree>)
        ensures
            tree::views(r@) == self@.children(),
            tree::all_marks(r@) == self.marks().at(self@.path).children(),
            self@.is_node(),
    {
        match self.green() {
            SyntaxTree::Node(kind, children, stamp) => {
                proof {
                    SyntaxTree::view_of_node(*kind, *children, *stamp);
                }
                children
            },
            SyntaxTree::Token(_, _) => unreached(),
        }
    }

    /// The number of children.
    pub fn child_count(&self) -> (r: usize)
        ensures
            r == self@.children().len(),
            self@.is_node(),
    {
        let children = self.children();
        assert(tree::views(children@).len() == children.len());
        children.len()
    }

    /// The child with number `i`.
    pub fn child(&self, i: usize) -> (r: SyntaxElement)
        requires
            i < self@.children().len(),
        ensures
            r@ == self@.child(i as int),
            r.fits(),
            r matches NodeOrToken::Node(node) ==> node.marks() == self.marks(),
    {
        proof {
            use_type_invariant(self);
            tree::path_step(self@.tree, self@.path, i as int);
        }
        let mut path = copy_path(&self.path);
        path.push(i);
        assert(tree::steps(path@) =~= self@.path.push(i as int));
        SyntaxElement::at(&self.root, path)
    }

    /// The children of this node, in text order.
    pub fn children_with_tokens(&self) -> (r: Vec<SyntaxElement>)
        ensures
            r.len() == self@.children().len(),
            forall|i: int|
                0 <= i < r.len() ==> (#[trigger] r@[i])@ == self@.child(i) && r@[i].fits(),
    {
        let count = self.children().len();
        let mut elements: Vec<SyntaxElement> = Vec::new();
        let mut i: usize = 0;
        while i < count
            invariant
                count == self@.children().len(),
                i <= count,
                elements.len() == i,
                forall|j: int|
                    0 <= j < i ==> (#[trigger] elements@[j])@ == self@.child(j)
                        && elements@[j].fits(),
            decreases count - i,
        {
            elements.push(self.child(i));
            i += 1;
        }
        elements
    }

    /// The number of this node among the children of its parent.
    pub fn index(&self) -> (r: usize)
        requires
            !self@.is_root(),
        ensures
            r == self@.index(),
            self@.is_node(),
    {
        proof {
            use_type_invariant(self);
        }
        self.path[self.path.len() - 1]
    }

    pub fn parent(&self) -> (r: Option<SyntaxNode>)
        ensures
            r is None <==> self@.is_root(),
            r matches Some(node) ==> node@ == self@.parent() && node.marks() == self.marks(),
            self@.is_node(),
    {
        proof {
            use_type_invariant(self);
        }
        parent_of(&self.root, &self.path)
    }

    pub fn first_token(&self) -> (r: Option<SyntaxToken>)
        ensures
            r is Some <==> self@.first_token() is Some,
            r matches Some(token) ==> Some(token@) == self@.first_token(),
            self@.is_node(),
    {
        proof {
            use_type_invariant(self);
            tree::leftmost_leads(self@.here());
            tree::path_join(self@.tree, self@.path, tree::leftmost(self@.here()));
        }
        token_at(&self.root, to_leftmost(&*self.root, copy_path(&self.path)))
    }

    /// Whether two nodes are one. A node that was built apart is another one, though it looks the
    /// same.
    pub fn identical(&self, other: &SyntaxNode) -> (r: bool)
        ensures
            r == one_node(self@, self.marks(), other@, other.marks()),
    {
        let stamped = match (self.green(), other.green()) {
            (SyntaxTree::Node(kind, children, stamp), SyntaxTree::Node(k, c, other_stamp)) => {
                proof {
                    SyntaxTree::view_of_node(*kind, *children, *stamp);
                    SyntaxTree::view_of_node(*k, *c, *other_stamp);
                }
                stamp.same(other_stamp)
            },
            _ => unreached(),
        };
        let before = text_before(&*self.root, &self.path);
        let other_before = text_before(&*other.root, &other.path);
        stamped && before.as_str().len() == other_before.as_str().len() && self.green().same(
            other.green(),
        )
    }

    /// Whether two nodes stand at the same place of trees that look the same.
    pub fn same(&self, other: &SyntaxNode) -> (r: bool)
        ensures
            r == (self@ == other@),
    {
        let ghost a = self@.path;
        let ghost b = other@.path;
        if self.path.len() != other.path.len() {
            assert(a.len() != b.len());
            return false;
        }
        let mut i: usize = 0;
        while i < self.path.len()
            invariant
                i <= self.path.len() == other.path.len(),
                a == tree::steps(self.path@),
                b == tree::steps(other.path@),
                a == self@.path,
                b == other@.path,
                forall|j: int| 0 <= j < i ==> a[j] == b[j],
            decreases self.path.len() - i,
        {
            if self.path[i] != other.path[i] {
                assert(a[i as int] != b[i as int]);
                return false;
            }
            i += 1;
        }
        assert(a =~= b);
        self.root.same(&*other.root)
    }

    /// This node as the root of a tree of its own.
    pub fn clone_subtree(&self) -> (r: SyntaxNode)
        ensures
            r@ == Place::root(self@.here()),
            r.marks() == self.marks().at(self@.path),
            self@.is_node(),
    {
        SyntaxNode::new_root(self.green().clone())
    }

    /// This node in a copy of its tree.
    pub fn clone_for_update(&self) -> (r: SyntaxNode)
        ensures
            r@ == self@,
            r.marks() == self.marks(),
            self@.is_node(),
    {
        self.clone()
    }

    /// This node in the tree in which it has the children `children`.
    pub fn with_children(&self, children: Vec<SyntaxTree>) -> (r: SyntaxNode)
        ensures
            r@ == self@.with_children(tree::views(children@)),
            marks_edited(self@, self.marks(), r.marks(), tree::all_marks(children@)),
            self@.is_node(),
    {
        let kind = self.kind();
        let new = SyntaxTree::node(kind, children);
        proof {
            tree::put_at(self@.tree, self@.path, new@);
            assert(self@.path.skip(0) =~= self@.path);
        }
        let root = Rc::new(self.root.put(&self.path, 0, new));
        SyntaxNode { root, path: copy_path(&self.path) }
    }

    /// The text of this node.
    pub fn to_string(&self) -> (r: String)
        ensures
            r@ == self@.here().text(),
            self@.is_node(),
    {
        self.green().text()
    }
}

/// The node above the place at `path`.
fn parent_of(root: &Rc<SyntaxTree>, path: &Vec<usize>) -> (r: Option<SyntaxNode>)
    requires
        root@.has(tree::steps(path@)),
    ensures
        r is None <==> path.len() == 0,
        r matches Some(node) ==> node@ == (Place {
            tree: root@,
            path: tree::steps(path@).drop_last(),
        }) && node.marks() == root.marks(),
{
    if path.len() == 0 {
        return None;
    }
    let up = above(path);
    proof {
        let p = tree::steps(path@);
        assert(p =~= p.drop_last().push(p.last()));
        tree::path_step(root@, p.drop_last(), p.last());
    }
    match SyntaxElement::at(root, up) {
        NodeOrToken::Node(node) => Some(node),
        NodeOrToken::Token(_) => None,
    }
}

impl SyntaxToken {
    /// A token stands at the place.
    #[verifier::type_invariant]
    pub open spec fn inv(self) -> bool {
        self@.is_token()
    }

    /// A token that is a tree of its own.
    pub fn new(kind: SyntaxKind, text: String) -> (r: SyntaxToken)
        ensures
            r@ == Place::root(Tree::Token(kind, text@)),
    {
        let root = Rc::new(SyntaxTree::Token(kind, text));
        let path: Vec<usize> = Vec::new();
        assert(tree::steps(path@) =~= Seq::<int>::empty());
        SyntaxToken { root, path }
    }

    /// The part of the tree at this token.
    pub fn green(&self) -> (r: &SyntaxTree)
        ensures
            r@ == self@.here(),
            r.marks() == Marks::Token,
            self@.is_token(),
    {
        proof {
            use_type_invariant(self);
        }
        descend(&*self.root, &self.path)
    }

    pub fn kind(&self) -> (r: SyntaxKind)
        ensures
            r == self@.kind(),
            self@.is_token(),
    {
        self.green().kind()
    }

    pub fn text(&self) -> (r: &str)
        ensures
            r@ == self@.here().text(),
            self@.is_token(),
    {
        match self.green() {
            SyntaxTree::Token(_, text) => text.as_str(),
            SyntaxTree::Node(_, _, _) => unreached(),
        }
    }

    /// The number of this token among the children of its parent.
    pub fn index(&self) -> (r: usize)
        requires
            !self@.is_root(),
        ensures
            r == self@.index(),
            self@.is_token(),
    {
        proof {
            use_type_invariant(self);
        }
        self.path[self.path.len() - 1]
    }

    pub fn parent(&self) -> (r: Option<SyntaxNode>)
        ensures
            r is None <==> self@.is_root(),
            r matches Some(node) ==> node@ == self@.parent(),
            self@.is_token(),
    {
        proof {
            use_type_invariant(self);
        }
        parent_of(&self.root, &self.path)
    }

    /// The token before this one; `None` at the start of the tree and after a node without
    /// children.
    pub fn prev_token(&self) -> (r: Option<SyntaxToken>)
        ensures
            r is Some <==> self@.prev_token() is Some,
            r matches Some(token) ==> Some(token@) == self@.prev_token(),
            self@.is_token(),
    {
        proof {
            use_type_invariant(self);
            tree::before_leads(self@.tree, self@.path);
        }
        let mut path = copy_path(&self.path);
        while path.len() > 0
            invariant
                tree::before(tree::steps(path@)) == tree::before(self@.path),
                self@.is_token(),
                tree::before(self@.path) matches Some(p) ==> self@.tree.has(p),
            decreases path.len(),
        {
            let end: usize = path.len() - 1;
            let step = path[end];
            let ghost p = tree::steps(path@);
            if step > 0 {
                path.set(end, step - 1);
                proof {
                    assert(tree::steps(path@) =~= p.drop_last().push(step - 1));
                    let found = tree::steps(path@);
                    tree::rightmost_leads(self@.tree.at(found));
                    tree::path_join(self@.tree, found, tree::rightmost(self@.tree.at(found)));
                }
                return token_at(&self.root, to_rightmost(&*self.root, path));
            }
            path.pop();
            assert(tree::steps(path@) =~= p.drop_last());
        }
        None
    }

    /// The token after this one; `None` at the end of the tree and before a node without
    /// children.
    pub fn next_token(&self) -> (r: Option<SyntaxToken>)
        ensures
            r is Some <==> self@.next_token() is Some,
            r matches Some(token) ==> Some(token@) == self@.next_token(),
            self@.is_token(),
    {
        proof {
            use_type_invariant(self);
            tree::after_leads(self@.tree, self@.path);
        }
        let mut path = copy_path(&self.path);
        while path.len() > 0
            invariant
                self@.tree.has(tree::steps(path@)),
                tree::after(self@.tree, tree::steps(path@)) == tree::after(self@.tree, self@.path),
                self@.is_token(),
                tree::after(self@.tree, self@.path) matches Some(p) ==> self@.tree.has(p),
            decreases path.len(),
        {
            let end: usize = path.len() - 1;
            let step = path[end];
            let ghost p = tree::steps(path@);
            let up = above(&path);
            proof {
                assert(p =~= p.drop_last().push(p.last()));
                tree::path_step(self@.tree, p.drop_last(), p.last());
            }
            let count = match descend(&*self.root, &up) {
                SyntaxTree::Node(kind, children, stamp) => {
                    proof {
                        SyntaxTree::view_of_node(*kind, *children, *stamp);
                    }
                    children.len()
                },
                SyntaxTree::Token(_, _) => 0,
            };
            if step + 1 < count {
                path.set(end, step + 1);
                proof {
                    assert(tree::steps(path@) =~= p.drop_last().push(step + 1));
                    let found = tree::steps(path@);
                    tree::leftmost_leads(self@.tree.at(found));
                    tree::path_join(self@.tree, found, tree::leftmost(self@.tree.at(found)));
                }
                return token_at(&self.root, to_leftmost(&*self.root, path));
            }
            path.pop();
            assert(tree::steps(path@) =~= p.drop_last());
        }
        None
    }
}

} // verus!
