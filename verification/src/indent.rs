//! How far a piece of syntax is indented, and the same piece at another indentation.
use vstd::prelude::*;
use vstd::string::{StrSliceExecFns, StringExecFns};

use crate::stamp::Marks;
use crate::syntax_kind::SyntaxKind;
use crate::syntax_node::{NodeOrToken, Place, SyntaxElement, SyntaxNode, SyntaxToken};
use crate::text;
use crate::tree;
use crate::tree::{SyntaxTree, Tree};

verus! {

/// Whitespace with a line break in it.
pub open spec fn breaks_line(tree: Tree) -> bool {
    tree is Token && tree.kind() == SyntaxKind::WHITESPACE && tree.text().contains('\n')
}

/// The level of indentation of the last of `leaves`: a quarter of the characters that follow the
/// last line break in whitespace. The number is kept in eight bits. A node without children
/// hides what stands before it.
pub open spec fn level_of(leaves: Seq<Tree>) -> nat
    decreases leaves.len(),
{
    if leaves.len() == 0 || leaves.last() is Node {
        0
    } else if breaks_line(leaves.last()) {
        text::last_line(leaves.last().text()).len() / 4 % 256
    } else {
        level_of(leaves.drop_last())
    }
}

/// The level of indentation of what stands at `place`.
pub open spec fn level_at(place: Place) -> nat {
    level_of(place.leaves_to())
}

/// The characters before the last of `leaves` on its line, where whitespace begins that line.
pub open spec fn indent_of(leaves: Seq<Tree>) -> Option<Seq<char>>
    decreases leaves.len(),
{
    if leaves.len() == 0 || leaves.last() is Node {
        None
    } else if breaks_line(leaves.last()) {
        Some(text::last_line(leaves.last().text()))
    } else if leaves.last().text().contains('\n') {
        None
    } else {
        indent_of(leaves.drop_last())
    }
}

/// The indentation of the line on which `place` begins; empty where it is not known.
pub open spec fn indent_at(place: Place) -> Seq<char> {
    match indent_of(place.leaves_to()) {
        Some(indent) => indent,
        None => Seq::empty(),
    }
}

/// The text of a piece of whitespace that is moved by `n` columns.
pub open spec fn shifted_text(text: Seq<char>, n: nat, deeper: bool) -> Seq<char> {
    if deeper {
        text + text::blanks(n)
    } else {
        text::unindented(text, n)
    }
}

/// The tree with every piece of whitespace in it that holds a line break moved by `n` columns,
/// to the right where `deeper`, to the left where not.
pub open spec fn shifted(tree: Tree, n: nat, deeper: bool) -> Tree
    decreases tree,
{
    match tree {
        Tree::Node(kind, children) => Tree::Node(
            kind,
            Seq::new(
                children.len(),
                |i: int|
                    if 0 <= i < children.len() {
                        shifted(children[i], n, deeper)
                    } else {
                        arbitrary()
                    },
            ),
        ),
        Tree::Token(kind, text) => if breaks_line(tree) {
            Tree::Token(kind, shifted_text(text, n, deeper))
        } else {
            tree
        },
    }
}

/// Whether one of `leaves` is whitespace with a line break.
pub open spec fn any_breaks(leaves: Seq<Tree>) -> bool {
    exists|i: int| 0 <= i < leaves.len() && breaks_line(#[trigger] leaves[i])
}

/// The marks of a tree after its lines have moved: parts without whitespace that holds a line break
/// keep theirs. The other nodes are built anew.
pub open spec fn marks_moved(tree: Tree, before: Marks, after: Marks) -> bool {
    forall|p: Seq<int>|
        tree.has(p) && !any_breaks(tree.at(p).leaves()) ==> #[trigger] after.at(p) == before.at(p)
}

/// Line breaks in the leaves of trees are in those of one of them.
proof fn breaks_in_one(trees: Seq<Tree>)
    ensures
        any_breaks(tree::leaves_of(trees)) <==> exists|i: int|
            0 <= i < trees.len() && any_breaks(#[trigger] trees[i].leaves()),
    decreases trees.len(),
{
    if trees.len() > 0 {
        let rest = trees.drop_last();
        let a = tree::leaves_of(rest);
        let b = trees.last().leaves();
        let all = tree::leaves_of(trees);
        breaks_in_one(rest);
        assert(all == a + b);
        if any_breaks(all) {
            let k = choose|k: int| 0 <= k < all.len() && breaks_line(#[trigger] all[k]);
            if k < a.len() {
                assert(breaks_line(a[k]));
                let i = choose|i: int|
                    0 <= i < rest.len() && any_breaks(#[trigger] rest[i].leaves());
                assert(any_breaks(trees[i].leaves()));
            } else {
                assert(breaks_line(b[k - a.len()]));
                assert(any_breaks(trees[trees.len() - 1].leaves()));
            }
        }
        if exists|i: int| 0 <= i < trees.len() && any_breaks(#[trigger] trees[i].leaves()) {
            let i = choose|i: int|
                0 <= i < trees.len() && any_breaks(#[trigger] trees[i].leaves());
            if i < rest.len() {
                assert(any_breaks(rest[i].leaves()));
                let k = choose|k: int| 0 <= k < a.len() && breaks_line(#[trigger] a[k]);
                assert(breaks_line(all[k]));
            } else {
                let k = choose|k: int| 0 <= k < b.len() && breaks_line(#[trigger] b[k]);
                assert(breaks_line(all[a.len() + k]));
            }
        }
    } else {
        assert(tree::leaves_of(trees) =~= Seq::<Tree>::empty());
    }
}

/// A node holds a line break where one of its children does.
proof fn breaks_in_child(kind: SyntaxKind, children: Seq<Tree>)
    ensures
        any_breaks(Tree::Node(kind, children).leaves()) <==> exists|i: int|
            0 <= i < children.len() && any_breaks(#[trigger] children[i].leaves()),
{
    breaks_in_one(children);
}

pub(crate) proof fn shifted_node(kind: SyntaxKind, children: Seq<Tree>, n: nat, deeper: bool)
    ensures
        shifted(Tree::Node(kind, children), n, deeper).kind() == kind,
        shifted(Tree::Node(kind, children), n, deeper) is Node,
        shifted(Tree::Node(kind, children), n, deeper).children().len() == children.len(),
        forall|i: int|
            0 <= i < children.len() ==> #[trigger] shifted(
                Tree::Node(kind, children),
                n,
                deeper,
            ).children()[i] == shifted(children[i], n, deeper),
{
    reveal_with_fuel(shifted, 2);
}

/// The leaves that `prev_token` passes.
pub(crate) proof fn prev_token_leaves(place: Place)
    requires
        place.tree.has(place.path),
    ensures
        place.prev_token() matches Some(prev) ==> {
            &&& prev.is_token()
            &&& prev.tree == place.tree
            &&& place.tree.leaves_before(place.path) == place.tree.leaves_before(prev.path).push(
                prev.here(),
            )
        },
        place.prev_token() is None ==> {
            let leaves = place.tree.leaves_before(place.path);
            leaves.len() == 0 || leaves.last() is Node
        },
{
    tree::before_leads(place.tree, place.path);
    if let Some(p) = tree::before(place.path) {
        let part = place.tree.at(p);
        let way = tree::rightmost(part);
        tree::rightmost_leads(part);
        tree::leaves_not_empty(part);
        tree::path_join(place.tree, p, way);
        let before = place.tree.leaves_before(place.path);
        assert(before =~= place.tree.leaves_before(p + way).push(place.tree.at(p + way)));
    }
}

/// The leaves up to the first token of a place.
pub(crate) proof fn first_token_leaves(place: Place)
    requires
        place.tree.has(place.path),
    ensures
        place.first_token() matches Some(token) ==> {
            &&& token.is_token()
            &&& token.tree == place.tree
            &&& token.leaves_to() == place.leaves_to()
        },
        place.first_token() is None ==> place.leaves_to().last() is Node,
{
    let part = place.here();
    let way = tree::leftmost(part);
    tree::leftmost_leads(part);
    tree::path_join(place.tree, place.path, way);
    let leaf = Place { tree: place.tree, path: place.path + way };
    assert(leaf.here() == part.leaves()[0]);
    if leaf.here() is Token {
        assert(leaf.here().leaves()[0] == leaf.here());
        assert(leaf.leaves_to() =~= place.leaves_to());
    }
}

/// A level of indentation: four columns each.
#[derive(Debug, Clone, Copy)]
pub struct IndentLevel(pub u8);

impl From<u8> for IndentLevel {
    fn from(level: u8) -> (r: IndentLevel) {
        IndentLevel(level)
    }
}

impl vstd::std_specs::convert::FromSpecImpl<u8> for IndentLevel {
    open spec fn obeys_from_spec() -> bool {
        true
    }

    open spec fn from_spec(level: u8) -> IndentLevel {
        IndentLevel(level)
    }
}

impl std::ops::Add<u8> for IndentLevel {
    type Output = IndentLevel;

    fn add(self, rhs: u8) -> (r: IndentLevel) {
        IndentLevel(self.0 + rhs)
    }
}

impl vstd::std_specs::ops::AddSpecImpl<u8> for IndentLevel {
    open spec fn obeys_add_spec() -> bool {
        true
    }

    /// The sum has to be a level.
    open spec fn add_req(self, rhs: u8) -> bool {
        self.0 + rhs <= 255
    }

    open spec fn add_spec(self, rhs: u8) -> IndentLevel {
        IndentLevel((self.0 + rhs) as u8)
    }
}

impl IndentLevel {
    /// The number of columns.
    pub open spec fn columns(self) -> nat {
        self.0 as nat * 4
    }

    pub fn single() -> (r: IndentLevel)
        ensures
            r == IndentLevel(0),
    {
        IndentLevel(0)
    }

    pub fn is_zero(&self) -> (r: bool)
        ensures
            r == (self.0 == 0),
    {
        self.0 == 0
    }

    /// The spaces that indent a line to this level.
    pub fn to_string(&self) -> (r: String)
        ensures
            r@ == text::blanks(self.columns()),
    {
        text::spaces(self.0 as usize * 4)
    }

    pub fn from_element(element: &SyntaxElement) -> (r: IndentLevel)
        ensures
            r.0 == level_at(element@),
    {
        match element {
            NodeOrToken::Node(it) => IndentLevel::from_node(it),
            NodeOrToken::Token(it) => IndentLevel::from_token(it),
        }
    }

    pub fn from_node(node: &SyntaxNode) -> (r: IndentLevel)
        ensures
            r.0 == level_at(node@),
    {
        let first = node.first_token();
        proof {
            first_token_leaves(node@);
        }
        match first {
            Some(it) => IndentLevel::from_token(&it),
            None => IndentLevel(0),
        }
    }

    pub fn from_token(token: &SyntaxToken) -> (r: IndentLevel)
        ensures
            r.0 == level_at(token@),
    {
        let mut at = token.clone();
        loop
            invariant
                at@.is_token(),
                level_at(at@) == level_at(token@),
            decreases at@.tree.leaves_before(at@.path).len(),
        {
            let ghost leaf = at@.here();
            assert(leaf.leaves()[0] == leaf);
            assert(at@.leaves_to().drop_last() =~= at@.tree.leaves_before(at@.path));
            if at.kind() == SyntaxKind::WHITESPACE && text::contains(at.text(), '\n') {
                let columns = text::last_line_of(at.text()).as_str().unicode_len();
                let level = columns / 4;
                assert(level as u8 == level % 256) by (bit_vector);
                return IndentLevel(#[verifier::truncate] (level as u8));
            }
            proof {
                prev_token_leaves(at@);
            }
            match at.prev_token() {
                Some(prev) => {
                    assert(prev@.here().leaves()[0] == prev@.here());
                    assert(prev@.leaves_to() =~= at@.leaves_to().drop_last());
                    at = prev;
                },
                None => {
                    assert(level_of(at@.leaves_to().drop_last()) == 0);
                    return IndentLevel(0);
                },
            }
        }
    }

    /// `node` as a tree of its own, one level deeper for each level of `self`. The very first
    /// token stays where it is: in
    /// ```text
    /// fn foo() {
    ///    92
    /// }
    /// ```
    /// indenting the block leaves its `{` in place.
    pub fn increase_indent(self, node: SyntaxNode) -> (r: SyntaxNode)
        ensures
            r@ == Place::root(shifted(node@.here(), self.columns(), true)),
            marks_moved(node@.here(), node.marks().at(node@.path), r.marks()),
    {
        let green = node.green();
        let (moved, _) = shift(green, self.0 as usize * 4, true);
        SyntaxNode::new_root(moved)
    }

    /// `node` as a tree of its own, its lines but the first moved to the left by the columns of
    /// `self`.
    pub fn decrease_indent(self, node: SyntaxNode) -> (r: SyntaxNode)
        ensures
            r@ == Place::root(shifted(node@.here(), self.columns(), false)),
            marks_moved(node@.here(), node.marks().at(node@.path), r.marks()),
    {
        let green = node.green();
        let (moved, _) = shift(green, self.0 as usize * 4, false);
        SyntaxNode::new_root(moved)
    }
}

/// `shifted` as a tree, and whether anything moved. Parts in which nothing moves are kept.
fn shift(tree: &SyntaxTree, n: usize, deeper: bool) -> (r: (SyntaxTree, bool))
    ensures
        r.0@ == shifted(tree@, n as nat, deeper),
        r.1 == any_breaks(tree@.leaves()),
        !r.1 ==> r.0@ == tree@,
        marks_moved(tree@, tree.marks(), r.0.marks()),
    decreases tree,
{
    match tree {
        SyntaxTree::Node(kind, children, stamp) => {
            let mut moved: Vec<SyntaxTree> = Vec::new();
            let mut any = false;
            let mut i: usize = 0;
            while i < children.len()
                invariant
                    tree == SyntaxTree::Node(*kind, *children, *stamp),
                    i <= children.len(),
                    moved.len() == i,
                    forall|j: int|
                        0 <= j < i ==> #[trigger] moved@[j]@ == shifted(
                            children@[j]@,
                            n as nat,
                            deeper,
                        ),
                    !any ==> forall|j: int| 0 <= j < i ==> #[trigger] moved@[j]@ == children@[j]@,
                    any == exists|j: int|
                        0 <= j < i && any_breaks((#[trigger] children@[j])@.leaves()),
                    forall|j: int|
                        0 <= j < i ==> marks_moved(
                            children@[j]@,
                            children@[j].marks(),
                            (#[trigger] moved@[j]).marks(),
                        ),
                decreases children.len() - i,
            {
                assert(decreases_to!(tree => tree->Node_1));
                assert(decreases_to!(tree->Node_1 => tree->Node_1@));
                assert(decreases_to!(tree->Node_1@ => tree->Node_1@[i as int]));
                let (part, changed) = shift(&children[i], n, deeper);
                moved.push(part);
                any = any || changed;
                i += 1;
            }
            proof {
                SyntaxTree::view_of_node(*kind, *children, *stamp);
                shifted_node(*kind, tree::views(children@), n as nat, deeper);
                assert(tree::views(moved@) =~= shifted(tree@, n as nat, deeper).children());
            }
            let ghost trees = tree::views(children@);
            proof {
                breaks_in_child(*kind, trees);
            }
            if any {
                let r = SyntaxTree::node(*kind, moved);
                proof {
                    let j = choose|j: int|
                        0 <= j < children.len() && any_breaks((#[trigger] children@[j])@.leaves());
                    assert(any_breaks(trees[j].leaves()));
                    assert forall|p: Seq<int>|
                        tree@.has(p) && !any_breaks(tree@.at(p).leaves()) implies
                        #[trigger] r.marks().at(p) == tree.marks().at(p) by {
                        let k = p[0];
                        assert(trees[k] == children@[k]@);
                        assert(r.marks().children()[k] == moved@[k].marks());
                        assert(tree.marks().children()[k] == children@[k].marks());
                        assert(moved@[k].marks().at(p.drop_first())
                            == children@[k].marks().at(p.drop_first()));
                    }
                }
                (r, true)
            } else {
                assert(tree::views(moved@) =~= tree::views(children@));
                assert forall|j: int| 0 <= j < trees.len() implies !any_breaks(
                    #[trigger] trees[j].leaves(),
                ) by {
                    assert(!any_breaks(children@[j]@.leaves()));
                }
                (tree.clone(), false)
            }
        },
        SyntaxTree::Token(kind, text) => {
            assert(tree@.leaves() =~= seq![tree@]);
            assert(tree@.leaves()[0] == tree@);
            if *kind == SyntaxKind::WHITESPACE && text::contains(text.as_str(), '\n') {
                if deeper {
                    let mut text = text.clone();
                    text.append(text::spaces(n).as_str());
                    (SyntaxTree::Token(*kind, text), true)
                } else {
                    (SyntaxTree::Token(*kind, text::unindent(text.as_str(), n)), true)
                }
            } else {
                (tree.clone(), false)
            }
        },
    }
}

/// The indentation of the line on which `node` begins. `None` where no whitespace with a line
/// break precedes it, or where a token that is not whitespace spans lines before it.
pub fn leading_indent(node: &SyntaxNode) -> (r: Option<String>)
    ensures
        r is Some <==> indent_of(node@.leaves_to()) is Some,
        r matches Some(indent) ==> Some(indent@) == indent_of(node@.leaves_to()),
        node@.is_node(),
{
    let first = node.first_token();
    proof {
        first_token_leaves(node@);
    }
    let mut token = match first {
        Some(it) => it,
        None => return None,
    };
    loop
        invariant
            token@.is_token(),
            indent_of(token@.leaves_to()) == indent_of(node@.leaves_to()),
            node@.is_node(),
        decreases token@.tree.leaves_before(token@.path).len(),
    {
        let ghost leaf = token@.here();
        assert(leaf.leaves()[0] == leaf);
        assert(token@.leaves_to().drop_last() =~= token@.tree.leaves_before(token@.path));
        if text::contains(token.text(), '\n') {
            if token.kind() == SyntaxKind::WHITESPACE {
                return Some(text::last_line_of(token.text()));
            }
            return None;
        }
        proof {
            prev_token_leaves(token@);
        }
        match token.prev_token() {
            Some(prev) => {
                assert(prev@.here().leaves()[0] == prev@.here());
                assert(prev@.leaves_to() =~= token@.leaves_to().drop_last());
                token = prev;
            },
            None => {
                assert(indent_of(token@.leaves_to().drop_last()) is None);
                return None;
            },
        }
    }
}

/// The indentation of the line on which `node` begins; empty where it is not known.
pub(crate) fn indent_or_empty(node: &SyntaxNode) -> (r: String)
    ensures
        r@ == indent_at(node@),
        node@.is_node(),
{
    match leading_indent(node) {
        Some(indent) => indent,
        None => String::new(),
    }
}

} // verus!
