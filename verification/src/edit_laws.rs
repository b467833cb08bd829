//! What holds of the edits.
use vstd::prelude::*;
use vstd::utf8::encode_utf8;

use crate::algo;
use crate::algo::InsertPosition;
use crate::ast;
use crate::ast::{
    AstNode, BinExpr, GenericArgList, MatchArmList, Path, PathSegment, RecordExprField,
    RecordExprFieldList, UseTree,
};
use crate::edit;
use crate::make;
use crate::stamp::Marks;
use crate::syntax_kind::SyntaxKind;
use crate::syntax_node;
use crate::syntax_node::Place;
use crate::tree;
use crate::tree::Tree;

verus! {

/// An edit of the children of a node stays inside of the node: the node keeps its place and its
/// kind, has the new children, and everything else in the tree is as it was.
pub proof fn edit_is_local(place: Place, children: Seq<Tree>, elsewhere: Seq<int>)
    requires
        place.is_node(),
    ensures
        place.with_children(children).is_node(),
        place.with_children(children).path == place.path,
        place.with_children(children).kind() == place.kind(),
        place.with_children(children).children() == children,
        place.tree.has(elsewhere) && tree::part_ways(place.path, elsewhere) ==> {
            &&& place.with_children(children).tree.has(elsewhere)
            &&& place.with_children(children).tree.at(elsewhere) == place.tree.at(elsewhere)
        },
{
    algo::with_children_keeps(place, children);
    if place.tree.has(elsewhere) && tree::part_ways(place.path, elsewhere) {
        tree::put_elsewhere(place.tree, place.path, Tree::Node(place.kind(), children), elsewhere);
    }
}

/// Following `p` and then `q` passes the text before both.
proof fn text_before_join(tree: Tree, p: Seq<int>, q: Seq<int>)
    ensures
        tree.text_before(p + q) == tree.text_before(p) + tree.at(p).text_before(q),
    decreases p.len(),
{
    if p.len() == 0 {
        assert(p + q =~= q);
        assert(tree.text_before(p) + tree.text_before(q) =~= tree.text_before(q));
    } else {
        assert((p + q).drop_first() =~= p.drop_first() + q);
        text_before_join(tree.children()[p[0]], p.drop_first(), q);
        assert(tree.text_before(p + q) =~= tree.text_before(p) + tree.at(p).text_before(q));
    }
}

/// Following `p` and then `q` in marks is following them joined.
proof fn marks_join(marks: Marks, p: Seq<int>, q: Seq<int>)
    ensures
        marks.at(p + q) == marks.at(p).at(q),
    decreases p.len(),
{
    if p.len() == 0 {
        assert(p + q =~= q);
    } else {
        assert((p + q).drop_first() =~= p.drop_first() + q);
        marks_join(marks.children()[p[0]], p.drop_first(), q);
    }
}

/// Whether `q` leads to what stands before the part that `p` leads to.
pub open spec fn leads_before(q: Seq<int>, p: Seq<int>) -> bool {
    exists|d: int|
        0 <= d < p.len() && d < q.len() && #[trigger] q[d] < #[trigger] p[d] && q.take(d) == p.take(
            d,
        )
}

/// An exchange leaves the text before what stands before it.
proof fn text_before_put(tree: Tree, p: Seq<int>, new: Tree, q: Seq<int>)
    requires
        tree.has(p),
        tree.has(q),
        q == p || leads_before(q, p),
    ensures
        tree.put(p, new).text_before(q) == tree.text_before(q),
    decreases p.len(),
{
    if p.len() > 0 {
        let child = tree.children()[p[0]];
        let changed = tree.put(p, new);
        if q != p {
            let d = choose|d: int|
                0 <= d < p.len() && d < q.len() && #[trigger] q[d] < #[trigger] p[d] && q.take(d)
                    == p.take(d);
            if d > 0 {
                assert(q.take(d)[0] == p.take(d)[0]);
                assert(q.drop_first()[d - 1] < p.drop_first()[d - 1]);
                assert(q.drop_first().take(d - 1) =~= q.take(d).drop_first());
                assert(p.drop_first().take(d - 1) =~= p.take(d).drop_first());
            }
        }
        if q[0] == p[0] {
            text_before_put(child, p.drop_first(), new, q.drop_first());
        }
        assert(changed.children().take(q[0]) =~= tree.children().take(q[0]));
    }
}

/// Nodes that are one look alike, bear one stamp, and have as many bytes of text before them. Nodes
/// that look alike and bear one stamp are one where the same text stands before them.
pub proof fn one_node_is_told(a: Place, a_marks: Marks, b: Place, b_marks: Marks)
    ensures
        ({
            let alike = a.here() == b.here() && a_marks.at(a.path).number() == b_marks.at(
                b.path,
            ).number();
            let before_a = a.tree.text_before(a.path);
            let before_b = b.tree.text_before(b.path);
            let one = syntax_node::one_node(a, a_marks, b, b_marks);
            &&& one ==> alike
            &&& alike && before_a == before_b ==> one
            &&& one && encode_utf8(before_a).len() <= usize::MAX && encode_utf8(before_b).len()
                <= usize::MAX ==> encode_utf8(before_a).len() == encode_utf8(before_b).len()
        }),
{
}

/// What stands before an edited node stays what it is, as a node too.
pub proof fn nodes_before_stay(
    place: Place,
    children: Seq<Tree>,
    before: Marks,
    after: Marks,
    marks: Seq<Marks>,
    elsewhere: Seq<int>,
)
    requires
        place.is_node(),
        place.tree.has(elsewhere),
        leads_before(elsewhere, place.path),
        syntax_node::marks_edited(place, before, after, marks),
    ensures
        syntax_node::one_node(
            Place { tree: place.tree, path: elsewhere },
            before,
            Place { tree: place.with_children(children).tree, path: elsewhere },
            after,
        ),
{
    assert(tree::part_ways(place.path, elsewhere));
    let new = Tree::Node(place.kind(), children);
    tree::put_elsewhere(place.tree, place.path, new, elsewhere);
    text_before_put(place.tree, place.path, new, elsewhere);
    assert(after.at(elsewhere) == before.at(elsewhere));
}

/// Children that stay at the start of an edited node, and all inside of them, stay what they are,
/// as nodes too.
pub proof fn first_children_stay(
    place: Place,
    children: Seq<Tree>,
    before: Marks,
    after: Marks,
    marks: Seq<Marks>,
    count: int,
    inside: Seq<int>,
)
    requires
        place.is_node(),
        0 <= count <= children.len(),
        count <= place.children().len(),
        children.take(count) == place.children().take(count),
        syntax_node::marks_edited(place, before, after, marks),
        count <= marks.len(),
        count <= before.at(place.path).children().len(),
        marks.take(count) == before.at(place.path).children().take(count),
        place.here().has(inside),
        inside.len() > 0,
        inside[0] < count,
    ensures
        syntax_node::one_node(
            Place { tree: place.tree, path: place.path + inside },
            before,
            Place { tree: place.with_children(children).tree, path: place.path + inside },
            after,
        ),
{
    let changed = place.with_children(children);
    let i = inside[0];
    assert(0 <= i);
    algo::with_children_keeps(place, children);
    tree::path_join(place.tree, place.path, inside);
    tree::path_join(changed.tree, place.path, inside);
    text_before_join(place.tree, place.path, inside);
    text_before_join(changed.tree, place.path, inside);
    text_before_put(place.tree, place.path, Tree::Node(place.kind(), children), place.path);
    marks_join(before, place.path, inside);
    marks_join(after, place.path, inside);
    let kept = before.at(place.path).children();
    assert(children[i] == children.take(count)[i]);
    assert(place.children()[i] == place.children().take(count)[i]);
    assert(marks[i] == marks.take(count)[i]);
    assert(kept[i] == kept.take(count)[i]);
    assert(children.take(i) =~= children.take(count).take(i));
    assert(place.children().take(i) =~= place.children().take(count).take(i));
}

/// Taking out what was inserted gives back the node.
pub proof fn removal_undoes_insertion(place: Place, at: int, new: Seq<Tree>)
    requires
        place.is_node(),
        0 <= at <= place.children().len(),
        new.len() > 0,
    ensures
        ({
            let with = place.with_children(algo::inserted(place.children(), at, new));
            with.with_children(
                algo::replaced(with.children(), at, at + new.len() - 1, Seq::empty()),
            ) == place
        }),
{
    let children = place.children();
    let longer = algo::inserted(children, at, new);
    algo::with_children_keeps(place, longer);
    assert(algo::replaced(longer, at, at + new.len() - 1, Seq::empty()) =~= children);
    edit::edited_twice(place, longer, children);
}

/// The operator of an expression is exchanged, and nothing else. Of two exchanges the second
/// stands.
pub proof fn operator_is_replaced(place: Place, op: SyntaxKind, other: SyntaxKind)
    requires
        place.is_node(),
        op.binary_operator(),
    ensures
        BinExpr::with_op(place, op) matches Some(changed) ==> {
            let i = tree::first(place.children(), 0, ast::operators());
            &&& changed.is_node()
            &&& changed.kind() == place.kind()
            &&& changed.children().len() == place.children().len()
            &&& tree::first(changed.children(), 0, ast::operators()) == i
            &&& changed.children()[i] == make::fixed(op)
            &&& forall|j: int|
                0 <= j < place.children().len() && j != i ==> #[trigger] changed.children()[j]
                    == place.children()[j]
            &&& BinExpr::with_op(changed, other) == BinExpr::with_op(place, other)
        },
        BinExpr::with_op(place, op) is None ==> BinExpr::with_op(place, other) is None,
{
    let children = place.children();
    let i = tree::first(children, 0, ast::operators());
    tree::first_bounds(children, 0, ast::operators());
    if i < children.len() {
        let new = children.update(i, make::fixed(op));
        algo::with_children_keeps(place, new);
        assert forall|j: int| 0 <= j < i implies !ast::operators()(#[trigger] new[j]) by {
            assert(new[j] == children[j]);
        }
        tree::first_is(new, 0, ast::operators(), i);
        let last = children.update(i, make::fixed(other));
        assert(new.update(i, make::fixed(other)) =~= last);
        edit::edited_twice(place, new, last);
    }
}

/// The segment of a path is exchanged, and nothing else. Of two exchanges the second stands. A path
/// without a segment stays as it is.
pub proof fn segment_is_replaced(path: Place, segment: Tree, other: Tree)
    requires
        path.is_node(),
        segment is Node,
        PathSegment::accepts(segment.kind()),
    ensures
        ({
            let changed = Path::segment_changed(path, segment);
            let i = tree::first(path.children(), 0, ast::nodes_of::<PathSegment>());
            &&& i < path.children().len() ==> {
                &&& changed.is_node()
                &&& changed.kind() == path.kind()
                &&& changed.children().len() == path.children().len()
                &&& ast::child_of::<PathSegment>(changed) == Some(changed.child(i))
                &&& changed.children()[i] == segment
                &&& forall|j: int|
                    0 <= j < path.children().len() && j != i ==> #[trigger] changed.children()[j]
                        == path.children()[j]
            }
            &&& i >= path.children().len() ==> changed == path
            &&& Path::segment_changed(changed, other) == Path::segment_changed(path, other)
        }),
{
    let wanted = ast::nodes_of::<PathSegment>();
    let children = path.children();
    let i = tree::first(children, 0, wanted);
    tree::first_bounds(children, 0, wanted);
    if i < children.len() {
        let new = children.update(i, segment);
        algo::with_children_keeps(path, new);
        assert forall|j: int| 0 <= j < i implies !wanted(#[trigger] new[j]) by {
            assert(new[j] == children[j]);
        }
        tree::first_is(new, 0, wanted, i);
        let last = children.update(i, other);
        assert(new.update(i, other) =~= last);
        edit::edited_twice(path, new, last);
    }
}

/// A segment has the generic arguments that it was given, and of two that it was given the second.
/// The `::` comes with the first.
pub proof fn args_are_replaced(
    segment: Place,
    args: Tree,
    turbo: bool,
    other: Tree,
    other_turbo: bool,
)
    requires
        segment.is_node(),
        args is Node,
        GenericArgList::accepts(args.kind()),
    ensures
        ({
            let changed = PathSegment::args_changed(segment, args, turbo);
            let i = tree::first(changed.children(), 0, ast::nodes_of::<GenericArgList>());
            &&& changed.is_node()
            &&& changed.kind() == segment.kind()
            &&& i < changed.children().len()
            &&& changed.children()[i] == args
            &&& PathSegment::args_changed(changed, other, other_turbo)
                == PathSegment::args_changed(segment, other, turbo)
        }),
{
    let wanted = ast::nodes_of::<GenericArgList>();
    let children = segment.children();
    let at = tree::first(children, 0, wanted);
    tree::first_bounds(children, 0, wanted);
    let colons = make::fixed(SyntaxKind::COLON2);
    let (new, i, last) = if at < children.len() {
        (children.update(at, args), at, children.update(at, other))
    } else if turbo {
        (children + seq![colons, args], children.len() as int + 1, children + seq![colons, other])
    } else {
        (children.push(args), children.len() as int, children.push(other))
    };
    algo::with_children_keeps(segment, new);
    assert forall|j: int| 0 <= j < i implies !wanted(#[trigger] new[j]) by {
        if j < children.len() {
            assert(new[j] == children[j]);
        }
    }
    tree::first_is(new, 0, wanted, i);
    assert(new.update(i, other) =~= last);
    edit::edited_twice(segment, new, last);
}

/// Where the list has a place for a new field: an opening bracket, or a field to go by.
pub open spec fn has_room(list: Place, position: InsertPosition<&RecordExprField>) -> bool {
    let children = list.children();
    let bracket = tree::first(children, 0, ast::tokens_of(SyntaxKind::L_CURLY)) < children.len();
    match position {
        InsertPosition::First => bracket,
        InsertPosition::Last => bracket || tree::last(
            children,
            children.len() as int,
            ast::nodes_of::<RecordExprField>(),
        ) >= 0,
        InsertPosition::Before(_) | InsertPosition::After(_) => true,
    }
}

/// What comes into a list with the field `field`: the field itself, and whitespace and commas
/// around it.
pub open spec fn brings(new: Seq<Tree>, field: Tree) -> bool {
    &&& new.contains(field)
    &&& forall|i: int|
        0 <= i < new.len() ==> {
            ||| #[trigger] new[i] == field
            ||| new[i].kind() == SyntaxKind::WHITESPACE
            ||| new[i] == make::fixed(SyntaxKind::COMMA)
        }
}

/// A field is added to the list, and everything that was in the list stays, in order. A list that
/// has no place for the field stays as it is.
pub proof fn field_is_added(
    list: Place,
    position: InsertPosition<&RecordExprField>,
    field: Tree,
)
    requires
        list.is_node(),
        position.fits_field(list),
        position matches InsertPosition::Before(anchor) ==> anchor@.is_node(),
        position matches InsertPosition::After(anchor) ==> anchor@.is_node(),
    ensures
        !has_room(list, position) ==> RecordExprFieldList::with_field(list, position, field)
            == list,
        has_room(list, position) ==> exists|at: int, new: Seq<Tree>|
            {
                &&& 0 <= at <= list.children().len()
                &&& brings(new, field)
                &&& RecordExprFieldList::with_field(list, position, field) == list.with_children(
                    #[trigger] algo::inserted(list.children(), at, new),
                )
            },
{
    let children = list.children();
    let comma = make::fixed(SyntaxKind::COMMA);
    let short = seq![RecordExprFieldList::space(list), field];
    let full = short.push(comma);
    let one_line = !list.here().text().contains('\n');
    let new = if position is Last && one_line {
        short
    } else {
        full
    };
    let with_comma = seq![comma] + new;
    assert(new[1] == field);
    assert(with_comma[2] == field);
    assert(brings(new, field));
    assert(brings(with_comma, field));
    tree::first_bounds(children, 0, ast::tokens_of(SyntaxKind::L_CURLY));
    tree::last_bounds(children, children.len() as int, ast::nodes_of::<RecordExprField>());
    let last = tree::last(
        children,
        children.len() as int,
        ast::nodes_of::<RecordExprField>(),
    );
    let anchor = match position {
        InsertPosition::Before(anchor) => {
            algo::child_stands(anchor@, list);
            anchor@.index()
        },
        InsertPosition::After(anchor) => {
            algo::child_stands(anchor@, list);
            anchor@.index()
        },
        _ => last,
    };
    if 0 <= anchor < children.len() {
        tree::first_bounds(children, anchor, tree::of_kind(SyntaxKind::COMMA));
    }
    if has_room(list, position) {
        let bracket = tree::first(children, 0, ast::tokens_of(SyntaxKind::L_CURLY));
        let next = tree::first(children, anchor, tree::of_kind(SyntaxKind::COMMA));
        let (at, what) = match position {
            InsertPosition::First => (bracket + 1, new),
            InsertPosition::Before(_) => (anchor, new),
            _ => if position is Last && last < 0 {
                (bracket + 1, new)
            } else if next < children.len() {
                (next + 1, new)
            } else {
                (anchor + 1, with_comma)
            },
        };
        assert(RecordExprFieldList::with_field(list, position, field) == list.with_children(
            algo::inserted(children, at, what),
        ));
    }
}

/// Those of `trees` that `wanted` holds of, in order.
pub open spec fn those(trees: Seq<Tree>, wanted: spec_fn(Tree) -> bool) -> Seq<Tree> {
    trees.filter(wanted)
}

proof fn those_join(a: Seq<Tree>, b: Seq<Tree>, wanted: spec_fn(Tree) -> bool)
    ensures
        those(a + b, wanted) == those(a, wanted) + those(b, wanted),
{
    Seq::filter_distributes_over_add(a, b, wanted);
}

pub(crate) proof fn those_of_three(
    a: Seq<Tree>,
    b: Seq<Tree>,
    c: Seq<Tree>,
    wanted: spec_fn(Tree) -> bool,
)
    ensures
        those(a + b + c, wanted) == those(a, wanted) + those(b, wanted) + those(c, wanted),
{
    those_join(a + b, c, wanted);
    those_join(a, b, wanted);
}

pub(crate) proof fn those_of_none(trees: Seq<Tree>, wanted: spec_fn(Tree) -> bool)
    requires
        forall|i: int| 0 <= i < trees.len() ==> !wanted(#[trigger] trees[i]),
    ensures
        those(trees, wanted) == Seq::<Tree>::empty(),
{
    assert(trees.all(|t: Tree| !wanted(t))) by {
        assert forall|i: int| 0 <= i < trees.len() implies (|t: Tree| !wanted(t))(trees[i]) by {
            assert(!wanted(trees[i]));
        }
    }
    trees.lemma_all_neg_filter_empty(wanted);
    assert(those(trees, wanted) =~= Seq::<Tree>::empty());
}

pub(crate) proof fn those_of_one(tree: Tree, wanted: spec_fn(Tree) -> bool)
    requires
        wanted(tree),
    ensures
        those(seq![tree], wanted) == seq![tree],
{
    reveal_with_fuel(Seq::filter, 2);
    assert(seq![tree].drop_last() =~= Seq::<Tree>::empty());
    assert(those(seq![tree], wanted) =~= seq![tree]);
}

/// Arms of a match.
pub open spec fn arms() -> spec_fn(Tree) -> bool {
    |tree: Tree| tree is Node && tree.kind() == SyntaxKind::MATCH_ARM
}

/// There is a closing bracket, and no arm after it.
pub open spec fn closed_arms(children: Seq<Tree>) -> bool {
    let end = tree::first(children, 0, tree::of_kind(SyntaxKind::R_CURLY));
    &&& end < children.len()
    &&& forall|i: int| end <= i < children.len() ==> !arms()(#[trigger] children[i])
}

/// `end` is where the closing bracket is.
proof fn closed_at(children: Seq<Tree>, end: int)
    requires
        0 <= end < children.len(),
        children[end].kind() == SyntaxKind::R_CURLY,
        forall|i: int|
            0 <= i < end ==> (#[trigger] children[i]).kind() != SyntaxKind::R_CURLY,
        forall|i: int| end <= i < children.len() ==> !arms()(#[trigger] children[i]),
    ensures
        closed_arms(children),
        tree::first(children, 0, tree::of_kind(SyntaxKind::R_CURLY)) == end,
{
    tree::first_is(children, 0, tree::of_kind(SyntaxKind::R_CURLY), end);
}

/// One arm more.
proof fn arm_is_added(list: Place, arm: Tree)
    requires
        list.is_node(),
        arms()(arm),
        closed_arms(list.children()),
    ensures
        MatchArmList::with_arm(list, arm).is_node(),
        MatchArmList::with_arm(list, arm).kind() == list.kind(),
        closed_arms(MatchArmList::with_arm(list, arm).children()),
        those(MatchArmList::with_arm(list, arm).children(), arms()) == those(
            list.children(),
            arms(),
        ).push(arm),
{
    let children = list.children();
    let end = tree::first(children, 0, tree::of_kind(SyntaxKind::R_CURLY));
    tree::first_bounds(children, 0, tree::of_kind(SyntaxKind::R_CURLY));
    let before = make::blank("    "@);
    let after = make::blank("\n"@ + crate::indent::indent_at(list));
    let new = seq![before, arm, after];
    let changed = algo::inserted(children, end, new);
    algo::with_children_keeps(list, changed);
    assert forall|i: int| 0 <= i < end + 3 implies (#[trigger] changed[i]).kind()
        != SyntaxKind::R_CURLY by {
        if i < end {
            assert(changed[i] == children[i]);
            assert(!tree::of_kind(SyntaxKind::R_CURLY)(children[i]));
        }
    }
    assert forall|i: int| end + 3 <= i < changed.len() implies !arms()(#[trigger] changed[i]) by {
        assert(changed[i] == children[i - 3]);
    }
    assert(changed[end + 3] == children[end]);
    closed_at(changed, end + 3);
    let rest = children.skip(end);
    assert forall|i: int| 0 <= i < rest.len() implies !arms()(#[trigger] rest[i]) by {
        assert(rest[i] == children[end + i]);
    }
    those_of_three(children.take(end), new, rest, arms());
    those_of_none(rest, arms());
    assert(children =~= children.take(end) + rest);
    those_join(children.take(end), rest, arms());
    assert(new =~= seq![before] + seq![arm] + seq![after]);
    those_of_three(seq![before], seq![arm], seq![after], arms());
    those_of_none(seq![before], arms());
    those_of_one(arm, arms());
    those_of_none(seq![after], arms());
    assert(those(changed, arms()) =~= those(children, arms()).push(arm));
}

proof fn arms_are_added(list: Place, new: Seq<Tree>)
    requires
        list.is_node(),
        forall|i: int| 0 <= i < new.len() ==> arms()(#[trigger] new[i]),
        closed_arms(list.children()),
    ensures
        MatchArmList::with_arms(list, new).is_node(),
        MatchArmList::with_arms(list, new).kind() == list.kind(),
        closed_arms(MatchArmList::with_arms(list, new).children()),
        those(MatchArmList::with_arms(list, new).children(), arms()) == those(
            list.children(),
            arms(),
        ) + new,
    decreases new.len(),
{
    if new.len() == 0 {
        assert(those(list.children(), arms()) + new =~= those(list.children(), arms()));
    } else {
        let first = new.drop_last();
        assert forall|i: int| 0 <= i < first.len() implies arms()(#[trigger] first[i]) by {
            assert(first[i] == new[i]);
        }
        arms_are_added(list, first);
        assert(arms()(new[new.len() - 1]));
        arm_is_added(MatchArmList::with_arms(list, first), new.last());
        assert((those(list.children(), arms()) + first).push(new.last()) =~= those(
            list.children(),
            arms(),
        ) + new);
    }
}

/// Whitespace that comes or goes leaves the arms and the closing bracket.
proof fn whitespace_is_no_arm(
    before: Seq<Tree>,
    old: Seq<Tree>,
    new: Seq<Tree>,
    after: Seq<Tree>,
)
    requires
        forall|i: int|
            0 <= i < old.len() ==> (#[trigger] old[i]).kind() == SyntaxKind::WHITESPACE,
        forall|i: int|
            0 <= i < new.len() ==> (#[trigger] new[i]).kind() == SyntaxKind::WHITESPACE,
    ensures
        those(before + new + after, arms()) == those(before + old + after, arms()),
        closed_arms(before + old + after) ==> closed_arms(before + new + after),
{
    those_of_three(before, old, after, arms());
    those_of_three(before, new, after, arms());
    those_of_none(old, arms());
    those_of_none(new, arms());
    let a = before + old + after;
    let b = before + new + after;
    if closed_arms(a) {
        let end = tree::first(a, 0, tree::of_kind(SyntaxKind::R_CURLY));
        tree::first_bounds(a, 0, tree::of_kind(SyntaxKind::R_CURLY));
        let n = before.len() as int;
        let from_a = n + old.len();
        let from_b = n + new.len();
        if n <= end < from_a {
            assert(a[end] == old[end - n]);
        }
        let new_end = if end < n {
            end
        } else {
            end - old.len() + new.len()
        };
        if end < n {
            assert(b[new_end] == before[end]);
            assert(a[end] == before[end]);
        } else {
            assert(b[new_end] == after[end - from_a]);
            assert(a[end] == after[end - from_a]);
        }
        assert forall|i: int| 0 <= i < new_end implies (#[trigger] b[i]).kind()
            != SyntaxKind::R_CURLY by {
            if i < n {
                assert(b[i] == a[i]);
                assert(!tree::of_kind(SyntaxKind::R_CURLY)(a[i]));
            } else if i < from_b {
                assert(b[i] == new[i - n]);
            } else {
                assert(b[i] == a[i - from_b + from_a]);
                assert(!tree::of_kind(SyntaxKind::R_CURLY)(a[i - from_b + from_a]));
            }
        }
        assert forall|i: int| new_end <= i < b.len() implies !arms()(#[trigger] b[i]) by {
            if i < n {
                assert(b[i] == a[i]);
                assert(!arms()(a[i]));
            } else if i < from_b {
                assert(b[i] == new[i - n]);
            } else {
                assert(b[i] == a[i - from_b + from_a]);
                assert(!arms()(a[i - from_b + from_a]));
            }
        }
        closed_at(b, new_end);
    }
}

/// Opening a list of arms up to several lines keeps its arms.
proof fn opened_keeps_arms(list: Place)
    requires
        list.is_node(),
    ensures
        MatchArmList::opened(list).is_node(),
        MatchArmList::opened(list).kind() == list.kind(),
        those(MatchArmList::opened(list).children(), arms()) == those(list.children(), arms()),
        closed_arms(list.children()) ==> closed_arms(MatchArmList::opened(list).children()),
{
    let children = list.children();
    let start = tree::first(children, 0, tree::of_kind(SyntaxKind::L_CURLY)) + 1;
    tree::first_bounds(children, 0, tree::of_kind(SyntaxKind::L_CURLY));
    if start <= children.len() {
        tree::first_bounds(children, start, tree::of_kind(SyntaxKind::R_CURLY));
    }
    let end = tree::first(children, start, tree::of_kind(SyntaxKind::R_CURLY));
    let none = Seq::<Tree>::empty();
    if start < end && forall|i: int|
        start <= i < end ==> (#[trigger] children[i]).kind() == SyntaxKind::WHITESPACE {
        let a = children.take(start);
        let old = children.subrange(start, end);
        let b = children.skip(end);
        assert forall|i: int| 0 <= i < old.len() implies (#[trigger] old[i]).kind()
            == SyntaxKind::WHITESPACE by {
            assert(old[i] == children[start + i]);
        }
        whitespace_is_no_arm(a, old, none, b);
        assert(a + old + b =~= children);
        assert(a + none + b =~= a + b);
        algo::with_children_keeps(list, a + b);
    }
    multiline_keeps_arms(MatchArmList::stripped(list));
}

proof fn multiline_keeps_arms(list: Place)
    requires
        list.is_node(),
    ensures
        edit::multiline(list).is_node(),
        edit::multiline(list).kind() == list.kind(),
        those(edit::multiline(list).children(), arms()) == those(list.children(), arms()),
        closed_arms(list.children()) ==> closed_arms(edit::multiline(list).children()),
{
    let children = list.children();
    let next = tree::first(children, 0, tree::of_kind(SyntaxKind::L_CURLY)) + 1;
    tree::first_bounds(children, 0, tree::of_kind(SyntaxKind::L_CURLY));
    let line = make::blank("\n"@ + crate::indent::indent_at(list));
    let none = Seq::<Tree>::empty();
    if next < children.len() {
        let a = children.take(next);
        if children[next] is Node || children[next].kind() != SyntaxKind::WHITESPACE {
            let b = children.skip(next);
            whitespace_is_no_arm(a, none, seq![line], b);
            assert(a + none + b =~= children);
            assert(a + seq![line] + b =~= children.insert(next, line));
            algo::with_children_keeps(list, children.insert(next, line));
        } else {
            let b = children.skip(next + 1);
            whitespace_is_no_arm(a, seq![children[next]], seq![line], b);
            assert(a + seq![children[next]] + b =~= children);
            assert(a + seq![line] + b =~= children.update(next, line));
            algo::with_children_keeps(list, children.update(next, line));
        }
    }
}

/// Appended arms come after those that the list had, in order, and no arm is lost. The list has to
/// have a closing bracket, with no arm after it.
pub proof fn arms_are_appended(list: Place, new: Seq<Tree>)
    requires
        list.is_node(),
        closed_arms(list.children()),
        forall|i: int| 0 <= i < new.len() ==> arms()(#[trigger] new[i]),
    ensures
        ({
            let longer = MatchArmList::with_arms(MatchArmList::opened(list), new);
            &&& longer.is_node()
            &&& longer.kind() == list.kind()
            &&& those(longer.children(), arms()) == those(list.children(), arms()) + new
        }),
{
    opened_keeps_arms(list);
    arms_are_added(MatchArmList::opened(list), new);
}

proof fn with_arms_join(list: Place, a: Seq<Tree>, b: Seq<Tree>)
    ensures
        MatchArmList::with_arms(list, a + b) == MatchArmList::with_arms(
            MatchArmList::with_arms(list, a),
            b,
        ),
    decreases b.len(),
{
    if b.len() == 0 {
        assert(a + b =~= a);
    } else {
        assert((a + b).drop_last() =~= a + b.drop_last());
        with_arms_join(list, a, b.drop_last());
    }
}

/// Nothing is to be stripped: between the brackets there is nothing, or more than whitespace.
spec fn is_stripped(children: Seq<Tree>) -> bool {
    let start = tree::first(children, 0, tree::of_kind(SyntaxKind::L_CURLY)) + 1;
    let end = tree::first(children, start, tree::of_kind(SyntaxKind::R_CURLY));
    !(start < end && forall|i: int|
        start <= i < end ==> (#[trigger] children[i]).kind() == SyntaxKind::WHITESPACE)
}

/// A stray closing bracket comes first, and the brackets that follow hold a line break alone once
/// the list is opened.
pub open spec fn closes_early(list: Place) -> bool {
    let stripped = MatchArmList::stripped(list);
    let children = stripped.children();
    let start = tree::first(children, 0, tree::of_kind(SyntaxKind::L_CURLY)) + 1;
    let end = tree::first(children, 0, tree::of_kind(SyntaxKind::R_CURLY));
    &&& end < start < children.len()
    &&& children[start].kind() == SyntaxKind::R_CURLY
    &&& !stripped.here().text().contains('\n')
}

/// Stripping leaves nothing to be stripped.
proof fn stripped_once(list: Place)
    requires
        list.is_node(),
    ensures
        MatchArmList::stripped(list).is_node(),
        is_stripped(MatchArmList::stripped(list).children()),
        is_stripped(list.children()) ==> MatchArmList::stripped(list) == list,
        MatchArmList::stripped(list) == list.with_children(
            MatchArmList::stripped(list).children(),
        ),
{
    let children = list.children();
    let open = tree::of_kind(SyntaxKind::L_CURLY);
    let close = tree::of_kind(SyntaxKind::R_CURLY);
    let start = tree::first(children, 0, open) + 1;
    tree::first_bounds(children, 0, open);
    edit::edited_twice(list, children, children);
    if !is_stripped(children) {
        let end = tree::first(children, start, close);
        tree::first_bounds(children, start, close);
        let new = children.take(start) + children.skip(end);
        algo::with_children_keeps(list, new);
        assert forall|j: int| 0 <= j < start - 1 implies !open(#[trigger] new[j]) by {
            assert(new[j] == children[j]);
        }
        assert(new[start - 1] == children[start - 1]);
        tree::first_is(new, 0, open, start - 1);
        if start < new.len() {
            assert(new[start] == children[end]);
        }
        tree::first_is(new, start, close, start);
    }
}

/// Where nothing is to be stripped, and a line is broken, there is nothing to open.
proof fn opened_stays(list: Place)
    requires
        list.is_node(),
        is_stripped(list.children()),
        list.here().text().contains('\n'),
    ensures
        MatchArmList::opened(list) == list,
{
    stripped_once(list);
}

/// A list that is opened stays as it is when that is done again.
proof fn opened_once(list: Place)
    requires
        list.is_node(),
    ensures
        MatchArmList::opened(MatchArmList::opened(list)) == MatchArmList::opened(list),
{
    let stripped = MatchArmList::stripped(list);
    let opened = MatchArmList::opened(list);
    stripped_once(list);
    if stripped.here().text().contains('\n') {
        opened_stays(stripped);
    } else {
        stripped_once(stripped);
        multiline_keeps_arms(stripped);
        if on_lines(stripped) {
            multiline_once(stripped);
        } else {
            multiline_once(stripped);
            line_is_stripped(stripped);
            if is_stripped(opened.children()) {
                broken_line(opened, line_place(stripped));
                opened_stays(opened);
            }
        }
    }
}

/// The number of the child that the line break comes as.
spec fn line_place(place: Place) -> int {
    tree::first(place.children(), 0, tree::of_kind(SyntaxKind::L_CURLY)) + 1
}

/// A child with a line break breaks the line of its parent.
proof fn broken_line(place: Place, i: int)
    requires
        place.is_node(),
        0 <= i < place.children().len(),
        place.children()[i].text().contains('\n'),
    ensures
        place.here().text().contains('\n'),
{
    tree::text_of_contains(place.children(), '\n');
}

/// A line break that was put between brackets that hold nothing else is stripped again; otherwise
/// it stays.
proof fn line_is_stripped(place: Place)
    requires
        place.is_node(),
        is_stripped(place.children()),
        !place.here().text().contains('\n'),
        !on_lines(place),
    ensures
        ({
            let with = edit::multiline(place);
            let next = line_place(place);
            &&& with.is_node()
            &&& 0 < next < with.children().len()
            &&& line_place(with) == next
            &&& with.children()[next].text().contains('\n')
            &&& place.children()[next].kind() == SyntaxKind::R_CURLY ==> !is_stripped(
                with.children(),
            ) && MatchArmList::stripped(with) == place
            &&& place.children()[next].kind() != SyntaxKind::R_CURLY ==> is_stripped(
                with.children(),
            )
            &&& with.children().len() == place.children().len() || with.children().len()
                == place.children().len() + 1
        }),
{
    let children = place.children();
    let open = tree::of_kind(SyntaxKind::L_CURLY);
    let close = tree::of_kind(SyntaxKind::R_CURLY);
    let next = tree::first(children, 0, open) + 1;
    tree::first_bounds(children, 0, open);
    tree::first_bounds(children, next, close);
    let end = tree::first(children, next, close);
    let text = "\n"@ + crate::indent::indent_at(place);
    let line = make::blank(text);
    reveal_strlit("\n");
    assert(text[0] == '\n');
    let inserts = children[next] is Node || children[next].kind() != SyntaxKind::WHITESPACE;
    let new = if inserts {
        children.insert(next, line)
    } else {
        children.update(next, line)
    };
    algo::with_children_keeps(place, new);
    assert forall|j: int| 0 <= j < next - 1 implies !open(#[trigger] new[j]) by {
        assert(new[j] == children[j]);
    }
    assert(new[next - 1] == children[next - 1]);
    tree::first_is(new, 0, open, next - 1);
    assert(new[next] == line);
    let new_end = if inserts {
        end + 1
    } else {
        end
    };
    assert(!close(line));
    assert forall|j: int| next <= j < new_end implies !close(#[trigger] new[j]) by {
        if j > next {
            if inserts {
                assert(new[j] == children[j - 1]);
            } else {
                assert(new[j] == children[j]);
            }
        }
    }
    if end < children.len() {
        assert(new[new_end] == children[end]);
    }
    if !inserts {
        assert(!close(children[next]));
        assert(next < end);
    }
    tree::first_is(new, next, close, new_end);
    if next < end {
        let i = choose|i: int|
            next <= i < end && (#[trigger] children[i]).kind() != SyntaxKind::WHITESPACE;
        if inserts {
            assert(new[i + 1] == children[i]);
        } else {
            assert(new[i] == children[i]);
        }
    } else {
        assert(close(children[next]));
        assert(new.take(next) + new.skip(next + 1) =~= children);
        assert forall|i: int| next <= i < new_end implies (#[trigger] new[i]).kind()
            == SyntaxKind::WHITESPACE by {}
        edit::edited_twice(place, new, children);
    }
}

/// A list to which an arm was appended is stripped, where it was so before or the arm stands
/// between its brackets; and it breaks a line.
proof fn arm_stays_stripped(list: Place, arm: Tree)
    requires
        list.is_node(),
        arms()(arm),
        tree::first(list.children(), 0, tree::of_kind(SyntaxKind::R_CURLY))
            < list.children().len(),
        is_stripped(list.children()) || tree::first(
            list.children(),
            0,
            tree::of_kind(SyntaxKind::L_CURLY),
        ) < tree::first(list.children(), 0, tree::of_kind(SyntaxKind::R_CURLY)),
    ensures
        ({
            let with = MatchArmList::with_arm(list, arm);
            &&& with.is_node()
            &&& is_stripped(with.children())
            &&& with.here().text().contains('\n')
            &&& tree::first(with.children(), 0, tree::of_kind(SyntaxKind::R_CURLY))
                < with.children().len()
        }),
{
    let children = list.children();
    let open = tree::of_kind(SyntaxKind::L_CURLY);
    let close = tree::of_kind(SyntaxKind::R_CURLY);
    let end = tree::first(children, 0, close);
    let l_curly = tree::first(children, 0, open);
    tree::first_bounds(children, 0, close);
    tree::first_bounds(children, 0, open);
    let text = "\n"@ + crate::indent::indent_at(list);
    let blank = make::blank("    "@);
    let line = make::blank(text);
    let new = seq![blank, arm, line];
    let changed = algo::inserted(children, end, new);
    let with = MatchArmList::with_arm(list, arm);
    algo::with_children_keeps(list, changed);
    reveal_strlit("\n");
    assert(text[0] == '\n');
    assert(changed[end + 2] == line);
    broken_line(with, end + 2);
    assert(changed[end] == blank);
    assert(changed[end + 1] == arm);
    assert(changed[end + 3] == children[end]);
    assert forall|i: int| 0 <= i < end + 3 implies !close(#[trigger] changed[i]) by {
        if i < end {
            assert(changed[i] == children[i]);
        }
    }
    tree::first_is(changed, 0, close, end + 3);
    if l_curly < end {
        assert forall|i: int| 0 <= i < l_curly implies !open(#[trigger] changed[i]) by {
            assert(changed[i] == children[i]);
        }
        assert(changed[l_curly] == children[l_curly]);
        tree::first_is(changed, 0, open, l_curly);
        assert forall|i: int| l_curly + 1 <= i < end + 3 implies !close(
            #[trigger] changed[i],
        ) by {}
        tree::first_is(changed, l_curly + 1, close, end + 3);
        assert(changed[end + 1].kind() != SyntaxKind::WHITESPACE);
    } else {
        assert forall|i: int| 0 <= i < l_curly + 3 implies !open(#[trigger] changed[i]) by {
            if i < end {
                assert(changed[i] == children[i]);
            } else if i >= end + 3 {
                assert(changed[i] == children[i - 3]);
            }
        }
        if l_curly < children.len() {
            assert(changed[l_curly + 3] == children[l_curly]);
        }
        tree::first_is(changed, 0, open, l_curly + 3);
        if l_curly < children.len() {
            let start = l_curly + 1;
            let stop = tree::first(children, start, close);
            tree::first_bounds(children, start, close);
            assert forall|i: int| start + 3 <= i < stop + 3 implies !close(
                #[trigger] changed[i],
            ) by {
                assert(changed[i] == children[i - 3]);
            }
            if stop < children.len() {
                assert(changed[stop + 3] == children[stop]);
            }
            tree::first_is(changed, start + 3, close, stop + 3);
            if start < stop {
                let i = choose|i: int|
                    start <= i < stop && (#[trigger] children[i]).kind() != SyntaxKind::WHITESPACE;
                assert(changed[i + 3] == children[i]);
            }
        }
    }
}

proof fn arms_stay_stripped(list: Place, new: Seq<Tree>)
    requires
        list.is_node(),
        new.len() > 0,
        forall|i: int| 0 <= i < new.len() ==> arms()(#[trigger] new[i]),
        tree::first(list.children(), 0, tree::of_kind(SyntaxKind::R_CURLY))
            < list.children().len(),
        is_stripped(list.children()) || tree::first(
            list.children(),
            0,
            tree::of_kind(SyntaxKind::L_CURLY),
        ) < tree::first(list.children(), 0, tree::of_kind(SyntaxKind::R_CURLY)),
    ensures
        ({
            let with = MatchArmList::with_arms(list, new);
            &&& with.is_node()
            &&& is_stripped(with.children())
            &&& with.here().text().contains('\n')
            &&& tree::first(with.children(), 0, tree::of_kind(SyntaxKind::R_CURLY))
                < with.children().len()
        }),
    decreases new.len(),
{
    let first = new.drop_last();
    assert(arms()(new[new.len() - 1]));
    if first.len() == 0 {
        arm_stays_stripped(list, new.last());
        assert(MatchArmList::with_arms(list, first) == list);
    } else {
        assert forall|i: int| 0 <= i < first.len() implies arms()(#[trigger] first[i]) by {
            assert(first[i] == new[i]);
        }
        arms_stay_stripped(list, first);
        arm_stays_stripped(MatchArmList::with_arms(list, first), new.last());
    }
}

/// Arms that no closing bracket follows are not appended.
proof fn no_bracket_no_arms(list: Place, new: Seq<Tree>)
    requires
        tree::first(list.children(), 0, tree::of_kind(SyntaxKind::R_CURLY))
            >= list.children().len(),
    ensures
        MatchArmList::with_arms(list, new) == list,
    decreases new.len(),
{
    if new.len() > 0 {
        no_bracket_no_arms(list, new.drop_last());
    }
}

/// The brackets of an opened list stand as they did in the list: where the opening one comes first
/// it does so still; otherwise, unless the list closes early, there is nothing to strip.
proof fn opened_brackets(list: Place)
    requires
        list.is_node(),
        !closes_early(list),
    ensures
        ({
            let children = MatchArmList::opened(list).children();
            ||| is_stripped(children)
            ||| tree::first(children, 0, tree::of_kind(SyntaxKind::L_CURLY)) < tree::first(
                children,
                0,
                tree::of_kind(SyntaxKind::R_CURLY),
            )
        }),
{
    let stripped = MatchArmList::stripped(list);
    let opened = MatchArmList::opened(list);
    stripped_once(list);
    if !stripped.here().text().contains('\n') {
        multiline_once(stripped);
        if !on_lines(stripped) {
            line_is_stripped(stripped);
            let children = stripped.children();
            let close = tree::of_kind(SyntaxKind::R_CURLY);
            let next = line_place(stripped);
            tree::first_bounds(children, 0, tree::of_kind(SyntaxKind::L_CURLY));
            tree::first_bounds(children, 0, close);
            if children[next].kind() == SyntaxKind::R_CURLY {
                // no closing bracket stands before the opening one
                let text = "\n"@ + crate::indent::indent_at(stripped);
                let new = children.insert(next, make::blank(text));
                algo::with_children_keeps(stripped, new);
                assert(tree::first(children, 0, close) >= next);
                assert forall|i: int| 0 <= i <= next implies !close(#[trigger] new[i]) by {
                    if i < next {
                        assert(new[i] == children[i]);
                    }
                }
                tree::first_bounds(new, 0, close);
            }
        }
    }
}

/// Arms can be appended all at once, or some first and the others later: though the list is opened
/// each time, the same list comes out. It does not where a stray closing bracket comes before the
/// opening one and the brackets after it are empty.
pub proof fn arms_in_turn(list: Place, a: Seq<Tree>, b: Seq<Tree>)
    requires
        list.is_node(),
        forall|i: int| 0 <= i < a.len() ==> arms()(#[trigger] a[i]),
        a.len() == 0 || !closes_early(list),
    ensures
        MatchArmList::with_arms(
            MatchArmList::opened(MatchArmList::with_arms(MatchArmList::opened(list), a)),
            b,
        ) == MatchArmList::with_arms(MatchArmList::opened(list), a + b),
{
    let opened = MatchArmList::opened(list);
    let with = MatchArmList::with_arms(opened, a);
    with_arms_join(opened, a, b);
    opened_keeps_arms(list);
    opened_once(list);
    if tree::first(opened.children(), 0, tree::of_kind(SyntaxKind::R_CURLY))
        >= opened.children().len() {
        no_bracket_no_arms(opened, a);
    } else if a.len() > 0 {
        opened_brackets(list);
        arms_stay_stripped(opened, a);
        opened_stays(with);
    }
}

/// The first arm with the pattern `_` leaves the list, all other arms stay, in order. A list
/// without such an arm stays as it is.
pub proof fn placeholder_is_removed(list: Place)
    requires
        list.is_node(),
    ensures
        ({
            let children = list.children();
            let i = tree::first(children, 0, MatchArmList::placeholders());
            let left = MatchArmList::without_placeholder(list);
            &&& i < children.len() ==> {
                &&& left.is_node()
                &&& left.kind() == list.kind()
                &&& those(left.children(), arms()) == those(children.take(i), arms()) + those(
                    children.skip(i + 1),
                    arms(),
                )
                &&& those(children, arms()) == those(children.take(i), arms()).push(children[i])
                    + those(children.skip(i + 1), arms())
            }
            &&& i >= children.len() ==> left == list
        }),
{
    let children = list.children();
    let i = tree::first(children, 0, MatchArmList::placeholders());
    tree::first_bounds(children, 0, MatchArmList::placeholders());
    if i < children.len() {
        let next = tree::first(children, i + 1, MatchArmList::solid());
        tree::first_bounds(children, i + 1, MatchArmList::solid());
        let a = children.take(i);
        let b = children.skip(i + 1);
        assert(children =~= a + seq![children[i]] + b);
        those_of_three(a, seq![children[i]], b, arms());
        those_of_one(children[i], arms());
        assert(those(a, arms()) + seq![children[i]] + those(b, arms()) =~= those(a, arms()).push(
            children[i],
        ) + those(b, arms()));
        if next < children.len() && children[next].kind() == SyntaxKind::COMMA {
            let gone = children.subrange(i + 1, next + 1);
            let rest = children.skip(next + 1);
            assert(b =~= gone + rest);
            assert forall|j: int| 0 <= j < gone.len() implies !arms()(#[trigger] gone[j]) by {
                assert(gone[j] == children[i + 1 + j]);
                if i + 1 + j < next {
                    assert(!MatchArmList::solid()(children[i + 1 + j]));
                }
            }
            those_join(gone, rest, arms());
            those_of_none(gone, arms());
            assert(those(b, arms()) =~= those(rest, arms()));
            those_join(a, rest, arms());
            algo::with_children_keeps(list, a + rest);
        } else {
            assert(children.remove(i) =~= a + b);
            those_join(a, b, arms());
            algo::with_children_keeps(list, children.remove(i));
        }
    }
}

/// What is neither an attribute, nor a comment, nor whitespace.
pub open spec fn plain() -> spec_fn(Tree) -> bool {
    |tree: Tree| !edit::decorations()(tree) && tree.kind() != SyntaxKind::WHITESPACE
}

proof fn undecorated_has_none(children: Seq<Tree>)
    ensures
        forall|i: int|
            0 <= i < edit::undecorated(children).len() ==> !edit::decorations()(
                #[trigger] edit::undecorated(children)[i],
            ),
        those(edit::undecorated(children), plain()) == those(children, plain()),
    decreases children.len(),
{
    if children.len() == 0 {
        assert(edit::undecorated(children) =~= children);
    } else {
        let head = seq![children[0]];
        let rest = children.skip(1);
        undecorated_has_none(rest);
        assert(children =~= head + rest);
        those_join(head, rest, plain());
        if !edit::decorations()(children[0]) {
            those_join(head, edit::undecorated(rest), plain());
        } else {
            assert(head[0] == children[0]);
            those_of_none(head, plain());
            assert(those(children, plain()) =~= those(rest, plain()));
            if children.len() > 1 && children[1].kind() == SyntaxKind::WHITESPACE {
                let left = children.skip(2);
                undecorated_has_none(left);
                assert(rest =~= seq![children[1]] + left);
                those_join(seq![children[1]], left, plain());
                those_of_none(seq![children[1]], plain());
                assert(those(rest, plain()) =~= those(left, plain()));
            }
        }
    }
}

proof fn undecorated_stays(children: Seq<Tree>)
    requires
        forall|i: int|
            0 <= i < children.len() ==> !edit::decorations()(#[trigger] children[i]),
    ensures
        edit::undecorated(children) == children,
    decreases children.len(),
{
    if children.len() > 0 {
        let rest = children.skip(1);
        assert forall|i: int| 0 <= i < rest.len() implies !edit::decorations()(
            #[trigger] rest[i],
        ) by {
            assert(rest[i] == children[i + 1]);
        }
        undecorated_stays(rest);
        assert(!edit::decorations()(children[0]));
        assert(children =~= seq![children[0]] + rest);
    } else {
        assert(edit::undecorated(children) =~= children);
    }
}

/// No attribute and no comment is left, everything that is neither one nor whitespace is, in order,
/// and removing them a second time changes nothing. A node without attributes and comments stays as
/// it is.
pub proof fn decorations_are_removed(place: Place)
    requires
        place.is_node(),
    ensures
        ({
            let bare = place.with_children(edit::undecorated(place.children()));
            &&& forall|i: int|
                0 <= i < bare.children().len() ==> !edit::decorations()(
                    #[trigger] bare.children()[i],
                )
            &&& those(bare.children(), plain()) == those(place.children(), plain())
            &&& bare.with_children(edit::undecorated(bare.children())) == bare
            &&& (forall|i: int|
                0 <= i < place.children().len() ==> !edit::decorations()(
                    #[trigger] place.children()[i],
                )) ==> bare == place
        }),
{
    let children = place.children();
    let left = edit::undecorated(children);
    algo::with_children_keeps(place, left);
    undecorated_has_none(children);
    undecorated_stays(left);
    edit::edited_twice(place, left, left);
    if forall|i: int| 0 <= i < children.len() ==> !edit::decorations()(#[trigger] children[i]) {
        undecorated_stays(children);
    }
}

/// The texts of trees that are joined.
pub(crate) proof fn text_of_join(a: Seq<Tree>, b: Seq<Tree>)
    ensures
        tree::text_of(a + b) == tree::text_of(a) + tree::text_of(b),
    decreases b.len(),
{
    if b.len() == 0 {
        assert(a + b =~= a);
        assert(tree::text_of(a) + tree::text_of(b) =~= tree::text_of(a));
    } else {
        assert((a + b).drop_last() =~= a + b.drop_last());
        text_of_join(a, b.drop_last());
        assert(tree::text_of(a + b) =~= tree::text_of(a) + tree::text_of(b));
    }
}

proof fn text_of_middle(a: Seq<Tree>, b: Tree, c: Seq<Tree>)
    ensures
        tree::text_of(a + seq![b] + c) == tree::text_of(a) + b.text() + tree::text_of(c),
{
    text_of_join(a + seq![b], c);
    text_of_join(a, seq![b]);
    assert(seq![b].drop_last() =~= Seq::<Tree>::empty());
    assert(tree::text_of(Seq::<Tree>::empty()) =~= Seq::<char>::empty());
    assert(tree::text_of(seq![b]) =~= b.text());
}

/// Nothing is to be put on a new line: there is no opening bracket, nothing follows the first one,
/// or whitespace with a line break does.
pub open spec fn on_lines(place: Place) -> bool {
    let children = place.children();
    let next = tree::first(children, 0, tree::of_kind(SyntaxKind::L_CURLY)) + 1;
    next >= children.len() || crate::indent::breaks_line(children[next])
}

/// A node stays as it is when it is put on several lines, and so does its text, if and only if
/// nothing in it is to be put on a new line. So it does when that is done again.
pub proof fn multiline_once(place: Place)
    requires
        place.is_node(),
    ensures
        edit::multiline(place) == place <==> on_lines(place),
        edit::multiline(place).here().text() == place.here().text() <==> on_lines(place),
        on_lines(edit::multiline(place)),
        edit::multiline(edit::multiline(place)) == edit::multiline(place),
{
    let children = place.children();
    let wanted = tree::of_kind(SyntaxKind::L_CURLY);
    let next = tree::first(children, 0, wanted) + 1;
    tree::first_bounds(children, 0, wanted);
    let text = "\n"@ + crate::indent::indent_at(place);
    let line = make::blank(text);
    if !on_lines(place) {
        reveal_strlit("\n");
        assert(text[0] == '\n');
        let inserts = children[next] is Node || children[next].kind() != SyntaxKind::WHITESPACE;
        let new = if inserts {
            children.insert(next, line)
        } else {
            children.update(next, line)
        };
        algo::with_children_keeps(place, new);
        assert forall|j: int| 0 <= j < next - 1 implies !wanted(#[trigger] new[j]) by {
            assert(new[j] == children[j]);
        }
        assert(new[next - 1] == children[next - 1]);
        tree::first_is(new, 0, wanted, next - 1);
        assert(new[next] == line);
        assert(crate::indent::breaks_line(line));
        let a = children.take(next);
        if inserts {
            let c = children.skip(next);
            assert(new =~= a + seq![line] + c);
            text_of_middle(a, line, c);
            assert(children =~= a + c);
            text_of_join(a, c);
            assert(tree::text_of(new).len() > tree::text_of(children).len());
        } else {
            let c = children.skip(next + 1);
            let old = children[next].text();
            let start = tree::text_of(a).len() as int;
            assert(new =~= a + seq![line] + c);
            text_of_middle(a, line, c);
            assert(children =~= a + seq![children[next]] + c);
            text_of_middle(a, children[next], c);
            assert(tree::text_of(new)[start] == text[0]);
            if old.len() > 0 {
                assert(tree::text_of(children)[start] == old[0]);
                assert(old[0] != '\n');
            } else {
                assert(tree::text_of(new).len() > tree::text_of(children).len());
            }
        }
        assert(place.here().text() == tree::text_of(children));
        assert(edit::multiline(place).here().text() == tree::text_of(new));
    }
}

/// The longest path that `path` is a prefix of.
pub open spec fn whole_path(path: Place) -> Place
    decreases path.path.len(),
{
    match Path::above(path) {
        None => path,
        Some(longer) => whole_path(longer),
    }
}

/// Each longer path that `path` is a prefix of is made of a path, `::` and a segment.
pub open spec fn unspaced(path: Place) -> bool
    decreases path.path.len(),
{
    match Path::above(path) {
        None => true,
        Some(longer) => {
            &&& path.index() == 0
            &&& longer.children().len() == 3
            &&& longer.children()[1] == make::fixed(SyntaxKind::COLON2)
            &&& ast::nodes_of::<PathSegment>()(longer.children()[2])
            &&& unspaced(longer)
        },
    }
}

pub(crate) proof fn text_of_three(a: Tree, b: Tree, c: Tree)
    ensures
        tree::text_of(seq![a, b, c]) == a.text() + b.text() + c.text(),
{
    reveal_with_fuel(tree::text_of, 4);
    assert(seq![a, b, c].drop_last() =~= seq![a, b]);
    assert(seq![a, b].drop_last() =~= seq![a]);
    assert(seq![a].drop_last() =~= Seq::<Tree>::empty());
    assert(tree::text_of(seq![a]) =~= a.text());
    assert(tree::text_of(seq![a, b]) =~= a.text() + b.text());
}

/// The text of a longer path, and its segment.
proof fn longer_path(path: Place)
    requires
        path.is_node(),
        path.kind() == SyntaxKind::PATH,
        unspaced(path),
        Path::above(path) is Some,
    ensures
        ({
            let longer = path.parent();
            &&& longer.is_node()
            &&& longer.kind() == SyntaxKind::PATH
            &&& ast::child_of::<PathSegment>(longer) == Some(longer.child(2))
            &&& longer.child(2).here() == longer.children()[2]
            &&& longer.here().text() == path.here().text() + "::"@ + longer.children()[2].text()
        }),
{
    let longer = path.parent();
    assert(path.path =~= longer.path.push(path.path.last()));
    tree::path_step(path.tree, longer.path, path.path.last());
    algo::child_fits(longer, 2);
    let children = longer.children();
    assert(children[0] == path.here());
    let wanted = ast::nodes_of::<PathSegment>();
    assert(!wanted(children[0]));
    assert(!wanted(children[1]));
    tree::first_is(children, 0, wanted, 2);
    assert(children =~= seq![children[0], children[1], children[2]]);
    text_of_three(children[0], children[1], children[2]);
}

proof fn extended_text(path: Place, start: Tree)
    requires
        path.is_node(),
        path.kind() == SyntaxKind::PATH,
        unspaced(path),
    ensures
        UseTree::extended(path, start) matches Some(long) ==> exists|more: Seq<char>|
            {
                &&& whole_path(path).here().text() == #[trigger] (path.here().text() + more)
                &&& long.text() == start.text() + more
            },
    decreases path.path.len(),
{
    if Path::above(path) is None {
        let more = Seq::<char>::empty();
        assert(path.here().text() + more =~= path.here().text());
        assert(start.text() + more =~= start.text());
    } else {
        let longer = path.parent();
        longer_path(path);
        let segment = longer.children()[2];
        let next = make::long_path(start, segment);
        text_of_three(start, make::fixed(SyntaxKind::COLON2), segment);
        extended_text(longer, next);
        if let Some(long) = UseTree::extended(path, start) {
            let more = choose|more: Seq<char>|
                {
                    &&& whole_path(longer).here().text() == #[trigger] (longer.here().text() + more)
                    &&& long.text() == next.text() + more
                };
            let all = "::"@ + segment.text() + more;
            assert(longer.here().text() + more =~= path.here().text() + all);
            assert(next.text() + more =~= start.text() + all);
        }
    }
}

/// Splitting a path loses nothing of it: the prefix and the suffix, joined by `::`, read as the
/// whole path.
pub proof fn path_is_split(prefix: Place)
    requires
        prefix.is_node(),
        prefix.kind() == SyntaxKind::PATH,
        unspaced(prefix),
    ensures
        UseTree::suffix(prefix) matches Some(suffix) ==> whole_path(prefix).here().text()
            == prefix.here().text() + "::"@ + suffix.text(),
{
    if let Some(suffix) = UseTree::suffix(prefix) {
        let longer = prefix.parent();
        longer_path(prefix);
        let segment = longer.children()[2];
        let start = make::short_path(segment);
        assert(seq![segment].drop_last() =~= Seq::<Tree>::empty());
        assert(tree::text_of(Seq::<Tree>::empty()) =~= Seq::<char>::empty());
        assert(start.text() == tree::text_of(seq![segment]));
        assert(start.text() =~= segment.text());
        extended_text(longer, start);
        let more = choose|more: Seq<char>|
            {
                &&& whole_path(longer).here().text() == #[trigger] (longer.here().text() + more)
                &&& suffix.text() == start.text() + more
            };
        assert(longer.here().text() + more =~= prefix.here().text() + "::"@ + suffix.text());
    }
}

/// A use tree has the path, the list, the new name and the star that it was made of.
pub proof fn use_tree_has_its_parts(path: Tree, list: Option<Tree>, alias: Option<Tree>, star: bool)
    requires
        ast::nodes_of::<Path>()(path),
        list matches Some(tree) ==> ast::nodes_of::<ast::UseTreeList>()(tree),
        alias matches Some(tree) ==> ast::nodes_of::<ast::Rename>()(tree),
    ensures
        ({
            let place = Place::root(make::use_tree_of(path, list, alias, star));
            &&& UseTree::part(ast::child_of::<Path>(place)) == Some(path)
            &&& UseTree::part(ast::child_of::<ast::UseTreeList>(place)) == list
            &&& UseTree::part(ast::child_of::<ast::Rename>(place)) == alias
            &&& ast::token_of(place, SyntaxKind::STAR) is Some <==> star
        }),
{
    let place = Place::root(make::use_tree_of(path, list, alias, star));
    let children = place.children();
    reveal_with_fuel(tree::first, 9);
    assert forall|i: int| 0 <= i < children.len() implies place.child(i).here()
        == children[i] by {
        algo::child_fits(place, i);
    }
}

/// Splitting off a prefix makes it the path of the use tree, and the rest of the path, with the
/// list, the new name and the star that followed it, the one item of its list. The rest is `self`
/// where the prefix is the whole path. Without a rest the use tree stays as it is.
pub proof fn prefix_becomes_path(use_tree: Place, prefix: Place, whole: bool)
    requires
        use_tree.is_node(),
        prefix.is_node(),
        prefix.kind() == SyntaxKind::PATH,
    ensures
        ({
            let list = ast::child_of::<ast::UseTreeList>(use_tree);
            let suffix = if whole {
                Some(make::short_path(make::self_segment()))
            } else {
                UseTree::suffix(prefix)
            };
            let split = UseTree::split(use_tree, prefix, whole);
            &&& suffix is None ==> split == use_tree
            &&& suffix matches Some(suffix) ==> exists|rest: Tree|
                {
                    &&& UseTree::part(ast::child_of::<Path>(split)) == Some(prefix.here())
                    &&& UseTree::part(ast::child_of::<ast::UseTreeList>(split)) == Some(
                        #[trigger] make::use_tree_list_of(rest),
                    )
                    &&& UseTree::part(ast::child_of::<Path>(Place::root(rest))) == Some(suffix)
                    &&& UseTree::part(ast::child_of::<ast::UseTreeList>(Place::root(rest)))
                        == UseTree::part(list)
                    &&& UseTree::part(ast::child_of::<ast::Rename>(Place::root(rest)))
                        == UseTree::part(ast::child_of::<ast::Rename>(use_tree))
                    &&& ast::token_of(Place::root(rest), SyntaxKind::STAR) is Some
                        <==> ast::token_of(use_tree, SyntaxKind::STAR) is Some
                }
        }),
{
    let list = ast::child_of::<ast::UseTreeList>(use_tree);
    let alias = ast::child_of::<ast::Rename>(use_tree);
    let star = ast::token_of(use_tree, SyntaxKind::STAR) is Some;
    let suffix = if whole {
        Some(make::short_path(make::self_segment()))
    } else {
        UseTree::suffix(prefix)
    };
    child_is_found::<ast::UseTreeList>(use_tree);
    child_is_found::<ast::Rename>(use_tree);
    if let Some(suffix) = suffix {
        if !whole {
            suffix_is_path(prefix);
        }
        let rest = make::use_tree_of(suffix, UseTree::part(list), UseTree::part(alias), star);
        use_tree_has_its_parts(suffix, UseTree::part(list), UseTree::part(alias), star);
        use_tree_has_its_parts(
            prefix.here(),
            Some(make::use_tree_list_of(rest)),
            None,
            false,
        );
    }
}

/// The child that is found is of the type that was looked for.
proof fn child_is_found<N: AstNode>(place: Place)
    requires
        place.is_node(),
    ensures
        UseTree::part(ast::child_of::<N>(place)) matches Some(tree) ==> ast::nodes_of::<N>()(tree),
{
    let i = tree::first(place.children(), 0, ast::nodes_of::<N>());
    tree::first_bounds(place.children(), 0, ast::nodes_of::<N>());
    algo::child_fits(place, i);
}

proof fn extended_is_path(path: Place, start: Tree)
    requires
        ast::nodes_of::<Path>()(start),
    ensures
        UseTree::extended(path, start) matches Some(long) ==> ast::nodes_of::<Path>()(long),
    decreases path.path.len(),
{
    if let Some(longer) = Path::above(path) {
        if let Some(segment) = ast::child_of::<PathSegment>(longer) {
            extended_is_path(longer, make::long_path(start, segment.here()));
        }
    }
}

proof fn suffix_is_path(prefix: Place)
    ensures
        UseTree::suffix(prefix) matches Some(suffix) ==> ast::nodes_of::<Path>()(suffix),
{
    if let Some(longer) = Path::above(prefix) {
        if let Some(segment) = ast::child_of::<PathSegment>(longer) {
            extended_is_path(longer, make::short_path(segment.here()));
        }
    }
}

/// The number of nodes and tokens in a tree.
spec fn weight(tree: Tree) -> nat
    decreases tree,
{
    match tree {
        Tree::Node(_, children) => 1 + weight_of(children),
        Tree::Token(_, _) => 1,
    }
}

spec fn weight_of(trees: Seq<Tree>) -> nat
    decreases trees,
{
    if trees.len() == 0 {
        0
    } else {
        weight_of(trees.drop_last()) + weight(trees.last())
    }
}

proof fn child_is_lighter(trees: Seq<Tree>, i: int)
    requires
        0 <= i < trees.len(),
    ensures
        weight(trees[i]) <= weight_of(trees),
    decreases trees.len(),
{
    if i < trees.len() - 1 {
        child_is_lighter(trees.drop_last(), i);
    }
}

/// A part of a tree is not the tree.
proof fn part_is_lighter(tree: Tree, path: Seq<int>)
    requires
        tree.has(path),
    ensures
        weight(tree.at(path)) <= weight(tree),
        path.len() > 0 ==> weight(tree.at(path)) < weight(tree),
    decreases path.len(),
{
    if path.len() > 0 {
        child_is_lighter(tree.children(), path[0]);
        part_is_lighter(tree.children()[path[0]], path.drop_first());
    }
}

/// Of the paths in a use tree without a list its own path is the whole one, and no path inside of
/// that path is.
pub proof fn own_path_is_whole(use_tree: Place, marks: Marks, path: Place, inside: Seq<int>)
    requires
        use_tree.is_node(),
        ast::child_of::<ast::UseTreeList>(use_tree) is None,
        ast::child_of::<Path>(use_tree) == Some(path),
        path.here().has(inside),
    ensures
        UseTree::is_whole(
            use_tree,
            marks,
            Place { tree: path.tree, path: path.path + inside },
            marks,
        ) <==> inside.len() == 0,
{
    tree::path_join(path.tree, path.path, inside);
    part_is_lighter(path.here(), inside);
    if inside.len() == 0 {
        assert(path.path + inside =~= path.path);
    }
}

} // verus!
