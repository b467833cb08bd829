//! How operators, segments and generic arguments are exchanged and where children are inserted,
//! told by the kinds of the children.
use vstd::prelude::*;

use crate::algo;
use crate::algo::InsertPosition;
use crate::ast;
use crate::ast::{BinExpr, GenericArgList, Path, PathSegment};
use crate::group_laws;
use crate::placing_laws;
use crate::syntax_kind::SyntaxKind;
use crate::syntax_node::{Place, SyntaxElement};
use crate::tree;
use crate::tree::Tree;

verus! {

/// How the operators read that may stand between the two sides of a binary expression; nothing for
/// all other kinds.
pub open spec fn reads(kind: SyntaxKind) -> Seq<char> {
    match kind {
        SyntaxKind::PIPE2 => seq!['|', '|'],
        SyntaxKind::AMP2 => seq!['&', '&'],
        SyntaxKind::EQ2 => seq!['=', '='],
        SyntaxKind::NEQ => seq!['!', '='],
        SyntaxKind::LTEQ => seq!['<', '='],
        SyntaxKind::GTEQ => seq!['>', '='],
        SyntaxKind::L_ANGLE => seq!['<'],
        SyntaxKind::R_ANGLE => seq!['>'],
        SyntaxKind::PLUS => seq!['+'],
        SyntaxKind::STAR => seq!['*'],
        SyntaxKind::MINUS => seq!['-'],
        SyntaxKind::SLASH => seq!['/'],
        SyntaxKind::PERCENT => seq!['%'],
        SyntaxKind::SHL => seq!['<', '<'],
        SyntaxKind::SHR => seq!['>', '>'],
        SyntaxKind::CARET => seq!['^'],
        SyntaxKind::PIPE => seq!['|'],
        SyntaxKind::AMP => seq!['&'],
        SyntaxKind::EQ => seq!['='],
        SyntaxKind::PLUSEQ => seq!['+', '='],
        SyntaxKind::SLASHEQ => seq!['/', '='],
        SyntaxKind::STAREQ => seq!['*', '='],
        SyntaxKind::PERCENTEQ => seq!['%', '='],
        SyntaxKind::SHREQ => seq!['>', '>', '='],
        SyntaxKind::SHLEQ => seq!['<', '<', '='],
        SyntaxKind::MINUSEQ => seq!['-', '='],
        SyntaxKind::PIPEEQ => seq!['|', '='],
        SyntaxKind::AMPEQ => seq!['&', '='],
        SyntaxKind::CARETEQ => seq!['^', '='],
        _ => Seq::empty(),
    }
}

/// A token that is a binary operator.
pub open spec fn is_operator(tree: Tree) -> bool {
    tree is Token && reads(tree.kind()).len() > 0
}

proof fn operator_reads(kind: SyntaxKind)
    ensures
        kind.binary_operator() <==> reads(kind).len() > 0,
        kind.binary_operator() ==> kind.fixed_text() is Some && kind.fixed_text()->0@ == reads(
            kind,
        ),
{
    reveal_strlit("||");
    reveal_strlit("&&");
    reveal_strlit("==");
    reveal_strlit("!=");
    reveal_strlit("<=");
    reveal_strlit(">=");
    reveal_strlit("<");
    reveal_strlit(">");
    reveal_strlit("+");
    reveal_strlit("*");
    reveal_strlit("-");
    reveal_strlit("/");
    reveal_strlit("%");
    reveal_strlit("<<");
    reveal_strlit(">>");
    reveal_strlit("^");
    reveal_strlit("|");
    reveal_strlit("&");
    reveal_strlit("=");
    reveal_strlit("+=");
    reveal_strlit("/=");
    reveal_strlit("*=");
    reveal_strlit("%=");
    reveal_strlit(">>=");
    reveal_strlit("<<=");
    reveal_strlit("-=");
    reveal_strlit("|=");
    reveal_strlit("&=");
    reveal_strlit("^=");
    if kind.binary_operator() {
        assert(kind.fixed_text()->0@ =~= reads(kind));
    }
}

/// The first operator among the children of a binary expression is exchanged for another token,
/// which reads as its kind does. All else stays.
pub proof fn first_operator_is_exchanged(place: Place, i: int, op: SyntaxKind)
    requires
        place.is_node(),
        0 <= i < place.children().len(),
        is_operator(place.children()[i]),
        forall|j: int| 0 <= j < i ==> !is_operator(#[trigger] place.children()[j]),
        op.fixed_text() is Some,
    ensures
        ({
            let text = if reads(op).len() > 0 {
                reads(op)
            } else {
                op.fixed_text()->0@
            };
            &&& BinExpr::with_op(place, op) matches Some(changed)
            &&& changed.is_node()
            &&& changed.kind() == place.kind()
            &&& changed.children() == place.children().take(i) + seq![Tree::Token(op, text)]
                + place.children().skip(i + 1)
        }),
{
    let children = place.children();
    let wanted = ast::operators();
    assert forall|j: int| 0 <= j < children.len() implies wanted(#[trigger] children[j])
        == is_operator(children[j]) by {
        operator_reads(children[j].kind());
    }
    tree::first_is(children, 0, wanted, i);
    operator_reads(op);
    let token = Tree::Token(op, op.fixed_text()->0@);
    algo::with_children_keeps(place, children.update(i, token));
    assert(children.update(i, token) =~= children.take(i) + seq![token] + children.skip(i + 1));
}

/// Without an operator there is nothing to exchange.
pub proof fn no_operator_no_exchange(place: Place, op: SyntaxKind)
    requires
        forall|j: int|
            0 <= j < place.children().len() ==> !is_operator(#[trigger] place.children()[j]),
    ensures
        BinExpr::with_op(place, op) is None,
{
    let children = place.children();
    let wanted = ast::operators();
    assert forall|j: int| 0 <= j < children.len() implies !wanted(#[trigger] children[j]) by {
        operator_reads(children[j].kind());
        assert(!is_operator(children[j]));
    }
    tree::first_is(children, 0, wanted, children.len() as int);
}

/// The first segment node among the children of a path is exchanged for another. All else stays. A
/// path without one stays as it is.
pub proof fn first_segment_is_exchanged(path: Place, segment: Tree, i: int)
    requires
        path.is_node(),
    ensures
        placing_laws::first_node(path.children(), SyntaxKind::PATH_SEGMENT, i) ==> {
            let changed = Path::segment_changed(path, segment);
            &&& changed.is_node()
            &&& changed.kind() == path.kind()
            &&& changed.children() == path.children().take(i) + seq![segment]
                + path.children().skip(i + 1)
        },
        group_laws::no_node(path.children(), SyntaxKind::PATH_SEGMENT) ==> Path::segment_changed(
            path,
            segment,
        ) == path,
{
    let children = path.children();
    group_laws::first_of_kind::<PathSegment>(children, SyntaxKind::PATH_SEGMENT);
    if placing_laws::first_node(children, SyntaxKind::PATH_SEGMENT, i) {
        algo::with_children_keeps(path, children.update(i, segment));
        assert(children.update(i, segment) =~= children.take(i) + seq![segment] + children.skip(
            i + 1,
        ));
    }
}

/// The generic arguments of a segment are exchanged for others, where they stood. A segment without
/// any gets them at its end, directly after `::` where `turbo`. All else stays.
pub proof fn generic_args_are_exchanged(segment: Place, args: Tree, turbo: bool, i: int)
    requires
        segment.is_node(),
    ensures
        ({
            let children = segment.children();
            let changed = PathSegment::args_changed(segment, args, turbo);
            let colons = Tree::Token(SyntaxKind::COLON2, seq![':', ':']);
            &&& changed.is_node()
            &&& changed.kind() == segment.kind()
            &&& placing_laws::first_node(children, SyntaxKind::GENERIC_ARG_LIST, i)
                ==> changed.children() == children.take(i) + seq![args] + children.skip(i + 1)
            &&& group_laws::no_node(children, SyntaxKind::GENERIC_ARG_LIST) && turbo
                ==> changed.children() == children + seq![colons, args]
            &&& group_laws::no_node(children, SyntaxKind::GENERIC_ARG_LIST) && !turbo
                ==> changed.children() == children + seq![args]
        }),
{
    let children = segment.children();
    let colons = Tree::Token(SyntaxKind::COLON2, seq![':', ':']);
    reveal_strlit("::");
    assert("::"@ =~= seq![':', ':']);
    group_laws::first_of_kind::<GenericArgList>(children, SyntaxKind::GENERIC_ARG_LIST);
    let at = tree::first(children, 0, ast::nodes_of::<GenericArgList>());
    algo::with_children_keeps(segment, children.update(at, args));
    algo::with_children_keeps(segment, children + seq![colons, args]);
    algo::with_children_keeps(segment, children.push(args));
    if placing_laws::first_node(children, SyntaxKind::GENERIC_ARG_LIST, i) {
        assert(children.update(i, args) =~= children.take(i) + seq![args] + children.skip(i + 1));
    }
    assert(children.push(args) =~= children + seq![args]);
}

/// Inserted children come before all others, after all others, directly before the anchor or
/// directly after it. All others stay, in order.
pub proof fn children_come_where_told(
    parent: Place,
    position: InsertPosition<SyntaxElement>,
    new: Seq<Tree>,
)
    requires
        position.fits(parent),
        position matches InsertPosition::Before(anchor) ==> anchor@.tree.has(anchor@.path),
        position matches InsertPosition::After(anchor) ==> anchor@.tree.has(anchor@.path),
    ensures
        ({
            let children = parent.children();
            let with = algo::inserted(children, position.index(parent), new);
            match position {
                InsertPosition::First => with == new + children,
                InsertPosition::Last => with == children + new,
                InsertPosition::Before(anchor) => {
                    let i = anchor@.path.last();
                    &&& with == children.take(i) + new + seq![anchor@.here()] + children.skip(i + 1)
                },
                InsertPosition::After(anchor) => {
                    let i = anchor@.path.last();
                    &&& with == children.take(i) + seq![anchor@.here()] + new + children.skip(i + 1)
                },
            }
        }),
{
    let children = parent.children();
    let with = algo::inserted(children, position.index(parent), new);
    match position {
        InsertPosition::First => {
            assert(with =~= new + children);
        },
        InsertPosition::Last => {
            assert(with =~= children + new);
        },
        InsertPosition::Before(anchor) => {
            algo::child_stands(anchor@, parent);
            let i = anchor@.path.last();
            assert(with =~= children.take(i) + new + seq![anchor@.here()] + children.skip(i + 1));
        },
        InsertPosition::After(anchor) => {
            algo::child_stands(anchor@, parent);
            let i = anchor@.path.last();
            assert(with =~= children.take(i) + seq![anchor@.here()] + new + children.skip(i + 1));
        },
    }
}

/// Exchanged children are those from the first anchor to the last, both taken in. All others stay,
/// in order.
pub proof fn children_are_exchanged(
    parent: Place,
    first: Place,
    last: Place,
    new: Seq<Tree>,
    j: int,
)
    requires
        first.is_child_of(parent),
        last.is_child_of(parent),
        first.tree.has(first.path),
        last.tree.has(last.path),
        first.path.last() <= last.path.last(),
    ensures
        ({
            let children = parent.children();
            let with = algo::replaced(children, first.index(), last.index(), new);
            let gone = last.path.last() - first.path.last() + 1;
            &&& with.len() == children.len() - gone + new.len()
            &&& 0 <= j < first.path.last() ==> with[j] == children[j]
            &&& 0 <= j < new.len() ==> with[first.path.last() + j] == new[j]
            &&& last.path.last() < j < children.len() ==> with[j - gone + new.len()] == children[j]
        }),
{
    algo::child_stands(first, parent);
    algo::child_stands(last, parent);
}

} // verus!
