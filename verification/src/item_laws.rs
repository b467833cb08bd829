//! What is left of an item without its attributes and comments, told by the kinds of its children.
use vstd::prelude::*;

use crate::algo;
use crate::edit;
use crate::edit_laws;
use crate::syntax_kind::SyntaxKind;
use crate::syntax_node::Place;
use crate::tree::Tree;

verus! {

/// What is of none of the three kinds that can leave an item.
pub open spec fn lasting() -> spec_fn(Tree) -> bool {
    |tree: Tree|
        tree.kind() != SyntaxKind::ATTR && tree.kind() != SyntaxKind::COMMENT && tree.kind()
            != SyntaxKind::WHITESPACE
}

/// Whether child number `i` stays: it is no attribute and no comment, nor the whitespace directly
/// after one.
pub open spec fn stays(children: Seq<Tree>, i: int) -> bool {
    let kind = children[i].kind();
    let before = children[i - 1].kind();
    &&& kind != SyntaxKind::ATTR
    &&& kind != SyntaxKind::COMMENT
    &&& kind == SyntaxKind::WHITESPACE && i > 0 ==> before != SyntaxKind::ATTR && before
        != SyntaxKind::COMMENT
}

/// Those of the children from number `i` on that stay.
pub open spec fn staying(children: Seq<Tree>, i: int) -> Seq<Tree>
    decreases children.len() - i,
{
    if i >= children.len() {
        Seq::empty()
    } else if stays(children, i) {
        seq![children[i]] + staying(children, i + 1)
    } else {
        staying(children, i + 1)
    }
}

proof fn rest_stays(children: Seq<Tree>, i: int)
    requires
        0 <= i <= children.len(),
        0 < i < children.len() && children[i].kind() == SyntaxKind::WHITESPACE ==> stays(
            children,
            i,
        ),
    ensures
        edit::undecorated(children.skip(i)) == staying(children, i),
    decreases children.len() - i,
{
    let rest = children.skip(i);
    if i < children.len() {
        assert(rest[0] == children[i]);
        assert(rest.skip(1) =~= children.skip(i + 1));
        if i + 1 < children.len() {
            assert(rest[1] == children[i + 1]);
            assert(rest.skip(2) =~= children.skip(i + 2));
        }
        if stays(children, i) {
            rest_stays(children, i + 1);
        } else if i + 1 < children.len() && children[i + 1].kind() == SyntaxKind::WHITESPACE {
            rest_stays(children, i + 2);
            assert(!stays(children, i + 1));
            assert(staying(children, i + 1) == staying(children, i + 2));
        } else {
            rest_stays(children, i + 1);
        }
    } else {
        assert(edit::undecorated(rest) =~= staying(children, i));
    }
}

proof fn staying_last(children: Seq<Tree>, i: int)
    requires
        0 <= i <= children.len(),
    ensures
        edit_laws::those(staying(children, i), lasting()) == edit_laws::those(
            children.skip(i),
            lasting(),
        ),
        forall|k: int|
            0 <= k < staying(children, i).len() ==> {
                &&& (#[trigger] staying(children, i)[k]).kind() != SyntaxKind::ATTR
                &&& staying(children, i)[k].kind() != SyntaxKind::COMMENT
            },
    decreases children.len() - i,
{
    let none = Seq::<Tree>::empty();
    if i >= children.len() {
        assert(children.skip(i) =~= none);
        assert(staying(children, i) =~= none);
    } else {
        staying_last(children, i + 1);
        let head = seq![children[i]];
        let rest = staying(children, i + 1);
        assert(children.skip(i) =~= none + head + children.skip(i + 1));
        edit_laws::those_of_three(none, head, children.skip(i + 1), lasting());
        edit_laws::those_of_three(none, head, rest, lasting());
        edit_laws::those_of_none(none, lasting());
        assert(none + head + rest =~= head + rest);
        if !stays(children, i) {
            assert(head[0] == children[i]);
            edit_laws::those_of_none(head, lasting());
            assert(none + none + edit_laws::those(rest, lasting()) =~= edit_laws::those(
                rest,
                lasting(),
            ));
        }
    }
}

/// Attributes and comments leave an item, and with each the whitespace directly after it. No child
/// of the kind `ATTR` or `COMMENT` is left, all that is of another kind and no whitespace is, in
/// order, and so is all other whitespace.
pub proof fn attributes_and_comments_leave(place: Place)
    requires
        place.is_node(),
    ensures
        ({
            let bare = place.with_children(edit::undecorated(place.children()));
            &&& bare.is_node()
            &&& bare.kind() == place.kind()
            &&& forall|i: int|
                0 <= i < bare.children().len() ==> {
                    &&& (#[trigger] bare.children()[i]).kind() != SyntaxKind::ATTR
                    &&& bare.children()[i].kind() != SyntaxKind::COMMENT
                }
            &&& edit_laws::those(bare.children(), lasting()) == edit_laws::those(
                place.children(),
                lasting(),
            )
            &&& bare.children() == staying(place.children(), 0)
        }),
{
    let children = place.children();
    assert(children.skip(0) =~= children);
    rest_stays(children, 0);
    staying_last(children, 0);
    algo::with_children_keeps(place, edit::undecorated(children));
}

} // verus!
