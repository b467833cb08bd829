//! Edits of the children of a node. Trees do not change: each edit gives the node in a new tree.
use std::ops::RangeInclusive;
use vstd::prelude::*;

use crate::syntax_kind::SyntaxKind;
use crate::syntax_node;
use crate::syntax_node::{Place, SyntaxElement, SyntaxNode};
use crate::tree;
use crate::tree::{SyntaxTree, Tree};

verus! {

/// `RangeInclusive::into_inner`: the two ends of a range that nothing has been taken from.
pub assume_specification<Idx>[ RangeInclusive::<Idx>::into_inner ](
    range: RangeInclusive<Idx>,
) -> (r: (Idx, Idx))
    ensures
        !range@.exhausted ==> r.0 == range@.start && r.1 == range@.end,
;

/// Where among the children of a node something is inserted.
#[derive(Debug)]
pub enum InsertPosition<T> {
    First,
    Last,
    Before(T),
    After(T),
}

impl InsertPosition<SyntaxElement> {
    /// The element that the position is relative to is a child of `parent`.
    pub open spec fn fits(self, parent: Place) -> bool {
        match self {
            InsertPosition::First | InsertPosition::Last => true,
            InsertPosition::Before(anchor) | InsertPosition::After(anchor) => anchor@.is_child_of(
                parent,
            ),
        }
    }

    /// How many of the children of `parent` stand before the position.
    pub open spec fn index(self, parent: Place) -> int {
        match self {
            InsertPosition::First => 0,
            InsertPosition::Last => parent.children().len() as int,
            InsertPosition::Before(anchor) => anchor@.index(),
            InsertPosition::After(anchor) => anchor@.index() + 1,
        }
    }
}

/// `items` with `new` inserted after the first `at` of them.
pub open spec fn inserted<A>(items: Seq<A>, at: int, new: Seq<A>) -> Seq<A> {
    items.take(at) + new + items.skip(at)
}

/// `items` with those from `from` to `to`, both taken in, exchanged for `new`.
pub open spec fn replaced<A>(items: Seq<A>, from: int, to: int, new: Seq<A>) -> Seq<A> {
    items.take(from) + new + items.skip(to + 1)
}

/// The ends of `range` are children of `parent`, in order.
pub open spec fn spans(range: RangeInclusive<SyntaxElement>, parent: Place) -> bool {
    &&& !range@.exhausted
    &&& range@.start@.is_child_of(parent)
    &&& range@.end@.is_child_of(parent)
    &&& range@.start@.index() <= range@.end@.index()
}

/// The child with number `i` is a child.
pub(crate) proof fn child_fits(parent: Place, i: int)
    ensures
        parent.child(i).is_child_of(parent),
        parent.child(i).index() == i,
        parent.child(i).here() == parent.children()[i],
        parent.tree.has(parent.path) && 0 <= i < parent.children().len() ==> parent.tree.has(
            parent.child(i).path,
        ),
{
    assert(parent.path.push(i).drop_last() =~= parent.path);
    tree::path_step(parent.tree, parent.path, i);
}

/// A child stands at its number.
pub(crate) proof fn child_stands(child: Place, parent: Place)
    requires
        child.is_child_of(parent),
        child.tree.has(child.path),
    ensures
        0 <= child.index() < parent.children().len(),
        child == parent.child(child.index()),
        child.here() == parent.children()[child.index()],
{
    assert(child.path =~= parent.path.push(child.path.last()));
    tree::path_step(parent.tree, parent.path, child.path.last());
}

/// The place of a node keeps its kind when its children change.
pub(crate) proof fn with_children_keeps(place: Place, children: Seq<Tree>)
    requires
        place.is_node(),
    ensures
        place.with_children(children).is_node(),
        place.with_children(children).kind() == place.kind(),
        place.with_children(children).children() == children,
        place.with_children(children).path == place.path,
        place.with_children(children).tree.leaves_before(place.path) == place.tree.leaves_before(
            place.path,
        ),
{
    tree::put_at(place.tree, place.path, Tree::Node(place.kind(), children));
}

/// `children` with those from `from` up to but without `to` exchanged for `new`.
pub(crate) fn splice(
    children: &Vec<SyntaxTree>,
    from: usize,
    to: usize,
    new: Vec<SyntaxTree>,
) -> (r: Vec<SyntaxTree>)
    requires
        from <= to <= children.len(),
    ensures
        tree::views(r@) == tree::views(children@).take(from as int) + tree::views(new@)
            + tree::views(children@).skip(to as int),
        tree::all_marks(r@) == tree::all_marks(children@).take(from as int) + tree::all_marks(new@)
            + tree::all_marks(children@).skip(to as int),
{
    let ghost old = tree::views(children@);
    let ghost mid = tree::views(new@);
    let ghost old_marks = tree::all_marks(children@);
    let ghost mid_marks = tree::all_marks(new@);
    let mut new = new;
    let mut result: Vec<SyntaxTree> = Vec::new();
    let mut i: usize = 0;
    while i < from
        invariant
            i <= from <= children.len(),
            old == tree::views(children@),
            old_marks == tree::all_marks(children@),
            tree::views(result@) == old.take(i as int),
            tree::all_marks(result@) == old_marks.take(i as int),
        decreases from - i,
    {
        let ghost so_far = tree::views(result@);
        let ghost so_far_marks = tree::all_marks(result@);
        result.push(children[i].clone());
        i += 1;
        assert(tree::views(result@) =~= so_far.push(old[i - 1]));
        assert(tree::views(result@) =~= old.take(i as int));
        assert(tree::all_marks(result@) =~= so_far_marks.push(old_marks[i - 1]));
        assert(tree::all_marks(result@) =~= old_marks.take(i as int));
    }
    result.append(&mut new);
    assert(tree::views(result@) =~= old.take(from as int) + mid);
    assert(tree::all_marks(result@) =~= old_marks.take(from as int) + mid_marks);
    i = to;
    assert(old.subrange(to as int, to as int) =~= Seq::<Tree>::empty());
    assert(tree::views(result@) =~= old.take(from as int) + mid + old.subrange(
        to as int,
        to as int,
    ));
    assert(tree::all_marks(result@) =~= old_marks.take(from as int) + mid_marks
        + old_marks.subrange(to as int, to as int));
    while i < children.len()
        invariant
            to <= i <= children.len(),
            old == tree::views(children@),
            old_marks == tree::all_marks(children@),
            tree::views(result@) == old.take(from as int) + mid + old.subrange(
                to as int,
                i as int,
            ),
            tree::all_marks(result@) == old_marks.take(from as int) + mid_marks
                + old_marks.subrange(to as int, i as int),
        decreases children.len() - i,
    {
        let ghost so_far = tree::views(result@);
        let ghost so_far_marks = tree::all_marks(result@);
        result.push(children[i].clone());
        i += 1;
        assert(tree::views(result@) =~= so_far.push(old[i - 1]));
        assert(old.subrange(to as int, i as int) =~= old.subrange(to as int, i - 1).push(
            old[i - 1],
        ));
        assert(tree::views(result@) =~= old.take(from as int) + mid + old.subrange(
            to as int,
            i as int,
        ));
        assert(tree::all_marks(result@) =~= so_far_marks.push(old_marks[i - 1]));
        assert(old_marks.subrange(to as int, i as int) =~= old_marks.subrange(
            to as int,
            i - 1,
        ).push(old_marks[i - 1]));
        assert(tree::all_marks(result@) =~= old_marks.take(from as int) + mid_marks
            + old_marks.subrange(to as int, i as int));
    }
    assert(old.subrange(to as int, i as int) =~= old.skip(to as int));
    assert(old_marks.subrange(to as int, i as int) =~= old_marks.skip(to as int));
    result
}

/// The parts of trees that `elements` stand for.
fn green_parts(elements: Vec<SyntaxElement>) -> (r: Vec<SyntaxTree>)
    ensures
        tree::views(r@) == syntax_node::parts(elements@),
        tree::all_marks(r@) == syntax_node::part_marks(elements@),
{
    let mut result: Vec<SyntaxTree> = Vec::new();
    let mut i: usize = 0;
    while i < elements.len()
        invariant
            i <= elements.len(),
            result.len() == i,
            forall|j: int|
                0 <= j < i ==> (#[trigger] result@[j])@ == elements@[j]@.here()
                    && result@[j].marks() == elements@[j].marks(),
        decreases elements.len() - i,
    {
        result.push(elements[i].green().clone());
        i += 1;
    }
    assert(tree::views(result@) =~= syntax_node::parts(elements@));
    assert(tree::all_marks(result@) =~= syntax_node::part_marks(elements@));
    result
}

/// `parent` with the elements `to_insert` inserted among its children.
pub fn insert_children(
    parent: &SyntaxNode,
    position: InsertPosition<SyntaxElement>,
    to_insert: Vec<SyntaxElement>,
) -> (r: SyntaxNode)
    requires
        position.fits(parent@),
    ensures
        parent@.is_node(),
        r@ == parent@.with_children(
            inserted(parent@.children(), position.index(parent@), syntax_node::parts(to_insert@)),
        ),
        syntax_node::marks_edited(
            parent@,
            parent.marks(),
            r.marks(),
            inserted(
                parent.marks().at(parent@.path).children(),
                position.index(parent@),
                syntax_node::part_marks(to_insert@),
            ),
        ),
{
    let children = parent.children();
    assert(children.len() == parent@.children().len());
    let at: usize = match &position {
        InsertPosition::First => 0,
        InsertPosition::Last => children.len(),
        InsertPosition::Before(anchor) => {
            let index = anchor.index();
            proof {
                child_stands(anchor@, parent@);
            }
            index
        },
        InsertPosition::After(anchor) => {
            let index = anchor.index();
            proof {
                child_stands(anchor@, parent@);
            }
            index + 1
        },
    };
    parent.with_children(splice(children, at, at, green_parts(to_insert)))
}

/// `parent` with the children in `to_delete` exchanged for the elements `to_insert`.
pub fn replace_children(
    parent: &SyntaxNode,
    to_delete: RangeInclusive<SyntaxElement>,
    to_insert: Vec<SyntaxElement>,
) -> (r: SyntaxNode)
    requires
        spans(to_delete, parent@),
    ensures
        parent@.is_node(),
        r@ == parent@.with_children(
            replaced(
                parent@.children(),
                to_delete@.start@.index(),
                to_delete@.end@.index(),
                syntax_node::parts(to_insert@),
            ),
        ),
        syntax_node::marks_edited(
            parent@,
            parent.marks(),
            r.marks(),
            replaced(
                parent.marks().at(parent@.path).children(),
                to_delete@.start@.index(),
                to_delete@.end@.index(),
                syntax_node::part_marks(to_insert@),
            ),
        ),
{
    let (start, end) = to_delete.into_inner();
    let from = start.index();
    let to = end.index();
    proof {
        child_stands(start@, parent@);
        child_stands(end@, parent@);
    }
    let children = parent.children();
    assert(children.len() == parent@.children().len());
    parent.with_children(splice(children, from, to + 1, green_parts(to_insert)))
}

/// Whether a node stands for something that could not be parsed.
pub open spec fn holds_error(node: Tree) -> bool {
    exists|i: int|
        0 <= i < node.children().len() && (#[trigger] node.children()[i]) is Node
            && node.children()[i].kind() == SyntaxKind::ERROR
}

/// Whether a child of `node` stands for something that could not be parsed.
pub fn has_errors(node: &SyntaxNode) -> (r: bool)
    ensures
        r == holds_error(node@.here()),
{
    let children = node.children();
    let mut i: usize = 0;
    while i < children.len()
        invariant
            i <= children.len(),
            tree::views(children@) == node@.here().children(),
            forall|j: int|
                0 <= j < i ==> !((#[trigger] node@.here().children()[j]) is Node
                    && node@.here().children()[j].kind() == SyntaxKind::ERROR),
        decreases children.len() - i,
    {
        assert(node@.here().children()[i as int] == children@[i as int]@);
        if children[i].is_node() && children[i].kind() == SyntaxKind::ERROR {
            return true;
        }
        i += 1;
    }
    false
}

} // verus!
