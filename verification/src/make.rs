//! New pieces of syntax. Each is a tree of its own, with nodes of its own.
use vstd::pervasive::unreached;
use vstd::prelude::*;

use crate::ast::{
    AstNode, MatchArm, MatchArmList, Pat, Path, PathSegment, Rename, TupleExpr, Use, UseTree,
    UseTreeList,
};
use crate::stamp::Marks;
use crate::syntax_kind::SyntaxKind;
use crate::syntax_node::{Place, SyntaxNode, SyntaxToken};
use crate::tree;
use crate::tree::{SyntaxTree, Tree};

verus! {

/// A token of a kind that has only one text.
pub open spec fn fixed(kind: SyntaxKind) -> Tree {
    Tree::Token(kind, kind.fixed_text()->0@)
}

/// A piece of whitespace.
pub open spec fn blank(text: Seq<char>) -> Tree {
    Tree::Token(SyntaxKind::WHITESPACE, text)
}

/// The segment `self`.
pub open spec fn self_segment() -> Tree {
    Tree::Node(
        SyntaxKind::PATH_SEGMENT,
        seq![Tree::Node(SyntaxKind::NAME_REF, seq![fixed(SyntaxKind::SELF_KW)])],
    )
}

/// A path of one segment.
pub open spec fn short_path(segment: Tree) -> Tree {
    Tree::Node(SyntaxKind::PATH, seq![segment])
}

/// `qualifier::segment`.
pub open spec fn long_path(qualifier: Tree, segment: Tree) -> Tree {
    Tree::Node(SyntaxKind::PATH, seq![qualifier, fixed(SyntaxKind::COLON2), segment])
}

/// `path`, then `::list`, `::*` and ` alias` as far as they are there.
pub open spec fn use_tree_of(
    path: Tree,
    list: Option<Tree>,
    alias: Option<Tree>,
    star: bool,
) -> Tree {
    let listed = match list {
        Some(list) => seq![path, fixed(SyntaxKind::COLON2), list],
        None => seq![path],
    };
    let starred = if star {
        listed + seq![fixed(SyntaxKind::COLON2), fixed(SyntaxKind::STAR)]
    } else {
        listed
    };
    let renamed = match alias {
        Some(alias) => starred + seq![blank(" "@), alias],
        None => starred,
    };
    Tree::Node(SyntaxKind::USE_TREE, renamed)
}

/// `use tree;`.
pub open spec fn use_of(use_tree: Tree) -> Tree {
    Tree::Node(
        SyntaxKind::USE,
        seq![
            fixed(SyntaxKind::USE_KW),
            blank(" "@),
            use_tree,
            fixed(SyntaxKind::SEMICOLON),
        ],
    )
}

/// `{tree}`.
pub open spec fn use_tree_list_of(use_tree: Tree) -> Tree {
    Tree::Node(
        SyntaxKind::USE_TREE_LIST,
        seq![fixed(SyntaxKind::L_CURLY), use_tree, fixed(SyntaxKind::R_CURLY)],
    )
}

/// `pat => expr`.
pub open spec fn arm_of(pat: Tree, expr: Tree) -> Tree {
    Tree::Node(
        SyntaxKind::MATCH_ARM,
        seq![pat, blank(" "@), fixed(SyntaxKind::FAT_ARROW), blank(" "@), expr],
    )
}

/// Arms on lines of their own, each indented and followed by a comma.
pub open spec fn arm_lines(arms: Seq<Tree>) -> Seq<Tree>
    decreases arms.len(),
{
    if arms.len() == 0 {
        Seq::empty()
    } else {
        arm_lines(arms.drop_last()) + seq![
            blank("\n    "@),
            arms.last(),
            fixed(SyntaxKind::COMMA),
        ]
    }
}

/// The tree that a piece of fixed syntax is.
fn fixed_token(kind: SyntaxKind) -> (r: SyntaxTree)
    requires
        kind.fixed_text() is Some,
    ensures
        r@ == fixed(kind),
{
    match kind.text() {
        Some(text) => SyntaxTree::Token(kind, text.to_owned()),
        None => unreached(),
    }
}

fn blank_token(text: &str) -> (r: SyntaxTree)
    ensures
        r@ == blank(text@),
{
    SyntaxTree::Token(SyntaxKind::WHITESPACE, text.to_owned())
}

/// The node of the type `N` at the root of a tree.
fn root_node<N: AstNode>(kind: SyntaxKind, children: Vec<SyntaxTree>) -> (r: N)
    requires
        N::accepts(kind),
    ensures
        r@ == Place::root(Tree::Node(kind, tree::views(children@))),
{
    match N::cast(SyntaxNode::new_root(SyntaxTree::node(kind, children))) {
        Some(node) => node,
        None => unreached(),
    }
}

/// A token of a kind that has only one text: punctuation or a keyword.
pub fn token(kind: SyntaxKind) -> (r: SyntaxToken)
    requires
        kind.fixed_text() is Some,
    ensures
        r@ == Place::root(fixed(kind)),
{
    match kind.text() {
        Some(text) => SyntaxToken::new(kind, text.to_owned()),
        None => unreached(),
    }
}

/// A piece of whitespace.
pub fn whitespace(text: String) -> (r: SyntaxToken)
    ensures
        r@ == Place::root(blank(text@)),
{
    SyntaxToken::new(SyntaxKind::WHITESPACE, text)
}

pub fn single_space() -> (r: SyntaxToken)
    ensures
        r@ == Place::root(blank(" "@)),
{
    whitespace(" ".to_owned())
}

pub fn single_newline() -> (r: SyntaxToken)
    ensures
        r@ == Place::root(blank("\n"@)),
{
    whitespace("\n".to_owned())
}

pub fn blank_line() -> (r: SyntaxToken)
    ensures
        r@ == Place::root(blank("\n\n"@)),
{
    whitespace("\n\n".to_owned())
}

pub fn path_segment_self() -> (r: PathSegment)
    ensures
        r@ == Place::root(self_segment()),
{
    let inner = vec![fixed_token(SyntaxKind::SELF_KW)];
    assert(tree::views(inner@) =~= seq![fixed(SyntaxKind::SELF_KW)]);
    let children = vec![SyntaxTree::node(SyntaxKind::NAME_REF, inner)];
    assert(tree::views(children@) =~= self_segment().children());
    root_node(SyntaxKind::PATH_SEGMENT, children)
}

/// A path of one segment.
pub fn path_unqualified(segment: &PathSegment) -> (r: Path)
    ensures
        r@ == Place::root(short_path(segment@.here())),
{
    let children = vec![segment.syntax().green().renewed()];
    assert(tree::views(children@) =~= short_path(segment@.here()).children());
    root_node(SyntaxKind::PATH, children)
}

/// `qualifier::segment`.
pub fn path_qualified(qualifier: &Path, segment: &PathSegment) -> (r: Path)
    ensures
        r@ == Place::root(long_path(qualifier@.here(), segment@.here())),
{
    let children = vec![
        qualifier.syntax().green().renewed(),
        fixed_token(SyntaxKind::COLON2),
        segment.syntax().green().renewed(),
    ];
    assert(tree::views(children@) =~= long_path(qualifier@.here(), segment@.here()).children());
    root_node(SyntaxKind::PATH, children)
}

/// What an optional node stands for.
pub open spec fn part_of<N: View<V = Place>>(node: Option<N>) -> Option<Tree> {
    match node {
        Some(node) => Some(node@.here()),
        None => None,
    }
}

/// `path`, then `::list`, `::*` and ` alias` as far as they are there.
pub fn use_tree(
    path: &Path,
    list: Option<UseTreeList>,
    alias: Option<Rename>,
    star: bool,
) -> (r: UseTree)
    ensures
        r@ == Place::root(use_tree_of(path@.here(), part_of(list), part_of(alias), star)),
{
    let ghost made = use_tree_of(path@.here(), part_of(list), part_of(alias), star);
    let mut children = vec![path.syntax().green().renewed()];
    let ghost before = tree::views(children@);
    assert(before =~= seq![path@.here()]);
    match &list {
        Some(list) => {
            children.push(fixed_token(SyntaxKind::COLON2));
            children.push(list.syntax().green().renewed());
        },
        None => {},
    }
    let ghost listed = tree::views(children@);
    assert(listed =~= match list {
        Some(list) => seq![path@.here(), fixed(SyntaxKind::COLON2), list@.here()],
        None => seq![path@.here()],
    });
    if star {
        children.push(fixed_token(SyntaxKind::COLON2));
        children.push(fixed_token(SyntaxKind::STAR));
    }
    let ghost starred = tree::views(children@);
    assert(starred =~= if star {
        listed + seq![fixed(SyntaxKind::COLON2), fixed(SyntaxKind::STAR)]
    } else {
        listed
    });
    match &alias {
        Some(alias) => {
            children.push(blank_token(" "));
            children.push(alias.syntax().green().renewed());
        },
        None => {},
    }
    assert(tree::views(children@) =~= made.children());
    root_node(SyntaxKind::USE_TREE, children)
}

/// `{use_tree}`.
pub fn use_tree_list(use_tree: &UseTree) -> (r: UseTreeList)
    ensures
        r@ == Place::root(use_tree_list_of(use_tree@.here())),
{
    let children = vec![
        fixed_token(SyntaxKind::L_CURLY),
        use_tree.syntax().green().renewed(),
        fixed_token(SyntaxKind::R_CURLY),
    ];
    assert(tree::views(children@) =~= use_tree_list_of(use_tree@.here()).children());
    root_node(SyntaxKind::USE_TREE_LIST, children)
}

/// `use use_tree;`.
pub fn use_(use_tree: &UseTree) -> (r: Use)
    ensures
        r@ == Place::root(use_of(use_tree@.here())),
{
    let children = vec![
        fixed_token(SyntaxKind::USE_KW),
        blank_token(" "),
        use_tree.syntax().green().renewed(),
        fixed_token(SyntaxKind::SEMICOLON),
    ];
    assert(tree::views(children@) =~= use_of(use_tree@.here()).children());
    root_node(SyntaxKind::USE, children)
}

/// The pattern `_`.
pub fn wildcard_pat() -> (r: Pat)
    ensures
        r@ == Place::root(
            Tree::Node(SyntaxKind::WILDCARD_PAT, seq![fixed(SyntaxKind::UNDERSCORE)]),
        ),
{
    let children = vec![fixed_token(SyntaxKind::UNDERSCORE)];
    assert(tree::views(children@) =~= seq![fixed(SyntaxKind::UNDERSCORE)]);
    root_node(SyntaxKind::WILDCARD_PAT, children)
}

/// The expression `()`.
pub fn expr_unit() -> (r: TupleExpr)
    ensures
        r@ == Place::root(
            Tree::Node(
                SyntaxKind::TUPLE_EXPR,
                seq![fixed(SyntaxKind::L_PAREN), fixed(SyntaxKind::R_PAREN)],
            ),
        ),
{
    let children = vec![fixed_token(SyntaxKind::L_PAREN), fixed_token(SyntaxKind::R_PAREN)];
    assert(tree::views(children@) =~= seq![
        fixed(SyntaxKind::L_PAREN),
        fixed(SyntaxKind::R_PAREN),
    ]);
    root_node(SyntaxKind::TUPLE_EXPR, children)
}

/// `pat => expr`.
pub fn match_arm(pat: &Pat, expr: &TupleExpr) -> (r: MatchArm)
    ensures
        r@ == Place::root(arm_of(pat@.here(), expr@.here())),
{
    let children = vec![
        pat.syntax().green().renewed(),
        blank_token(" "),
        fixed_token(SyntaxKind::FAT_ARROW),
        blank_token(" "),
        expr.syntax().green().renewed(),
    ];
    assert(tree::views(children@) =~= arm_of(pat@.here(), expr@.here()).children());
    root_node(SyntaxKind::MATCH_ARM, children)
}

/// The parts of trees at the places of arms.
pub open spec fn arm_parts(arms: Seq<MatchArm>) -> Seq<Tree> {
    Seq::new(arms.len(), |i: int| arms[i]@.here())
}

/// The marks of the parts of trees at the places of arms.
pub open spec fn arm_marks(arms: Seq<MatchArm>) -> Seq<Marks> {
    Seq::new(arms.len(), |i: int| arms[i].marks().at(arms[i]@.path))
}

/// Arms in curly brackets, on lines of their own, each followed by a comma.
pub fn match_arm_list(arms: Vec<MatchArm>) -> (r: MatchArmList)
    ensures
        r@ == Place::root(
            Tree::Node(
                SyntaxKind::MATCH_ARM_LIST,
                seq![fixed(SyntaxKind::L_CURLY)] + arm_lines(arm_parts(arms@)) + seq![
                    blank("\n"@),
                    fixed(SyntaxKind::R_CURLY),
                ],
            ),
        ),
{
    let ghost parts = arm_parts(arms@);
    let mut children = vec![fixed_token(SyntaxKind::L_CURLY)];
    let mut i: usize = 0;
    assert(parts.take(0) =~= Seq::<Tree>::empty());
    assert(tree::views(children@) =~= seq![fixed(SyntaxKind::L_CURLY)] + arm_lines(parts.take(0)));
    while i < arms.len()
        invariant
            i <= arms.len(),
            parts == arm_parts(arms@),
            tree::views(children@) == seq![fixed(SyntaxKind::L_CURLY)] + arm_lines(
                parts.take(i as int),
            ),
        decreases arms.len() - i,
    {
        let ghost so_far = tree::views(children@);
        let arm = arms[i].syntax().green().renewed();
        children.push(blank_token("\n    "));
        children.push(arm);
        children.push(fixed_token(SyntaxKind::COMMA));
        i += 1;
        proof {
            assert(parts.take(i as int).drop_last() =~= parts.take(i - 1));
            let line = seq![blank("\n    "@), parts[i - 1], fixed(SyntaxKind::COMMA)];
            assert(tree::views(children@) =~= so_far + line);
            assert(tree::views(children@) =~= seq![fixed(SyntaxKind::L_CURLY)] + arm_lines(
                parts.take(i as int),
            ));
        }
    }
    assert(parts.take(i as int) =~= parts);
    let ghost so_far = tree::views(children@);
    children.push(blank_token("\n"));
    children.push(fixed_token(SyntaxKind::R_CURLY));
    assert(tree::views(children@) =~= so_far + seq![blank("\n"@), fixed(SyntaxKind::R_CURLY)]);
    root_node(SyntaxKind::MATCH_ARM_LIST, children)
}

} // verus!
