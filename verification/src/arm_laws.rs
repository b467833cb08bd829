//! What arms of a match come and go, told by the kinds of the children of the list.
use vstd::prelude::*;

use crate::algo;
use crate::ast;
use crate::ast::{MatchArmList, Pat};
use crate::edit;
use crate::edit_laws;
use crate::indent;
use crate::make;
use crate::syntax_kind::SyntaxKind;
use crate::syntax_node::Place;
use crate::tree;
use crate::tree::Tree;

verus! {

/// The kinds of patterns.
pub open spec fn pattern(tree: Tree) -> bool {
    let kind = tree.kind();
    &&& tree is Node
    &&& {
        ||| kind == SyntaxKind::BOX_PAT
        ||| kind == SyntaxKind::CONST_BLOCK_PAT
        ||| kind == SyntaxKind::IDENT_PAT
        ||| kind == SyntaxKind::LITERAL_PAT
        ||| kind == SyntaxKind::MACRO_PAT
        ||| kind == SyntaxKind::OR_PAT
        ||| kind == SyntaxKind::PAREN_PAT
        ||| kind == SyntaxKind::PATH_PAT
        ||| kind == SyntaxKind::RANGE_PAT
        ||| kind == SyntaxKind::RECORD_PAT
        ||| kind == SyntaxKind::REF_PAT
        ||| kind == SyntaxKind::REST_PAT
        ||| kind == SyntaxKind::SLICE_PAT
        ||| kind == SyntaxKind::TUPLE_PAT
        ||| kind == SyntaxKind::TUPLE_STRUCT_PAT
        ||| kind == SyntaxKind::WILDCARD_PAT
    }
}

/// An arm of a match.
pub open spec fn is_arm(tree: Tree) -> bool {
    tree is Node && tree.kind() == SyntaxKind::MATCH_ARM
}

/// Child number `i` is the first pattern among `children`.
pub open spec fn first_pattern(children: Seq<Tree>, i: int) -> bool {
    &&& 0 <= i < children.len()
    &&& pattern(children[i])
    &&& forall|j: int| 0 <= j < i ==> !pattern(#[trigger] children[j])
}

/// An arm whose first pattern is `_`.
pub open spec fn wild(tree: Tree) -> bool {
    &&& is_arm(tree)
    &&& exists|i: int|
        #[trigger] first_pattern(tree.children(), i) && tree.children()[i].kind()
            == SyntaxKind::WILDCARD_PAT
}

proof fn wild_is_placeholder(tree: Tree)
    ensures
        wild(tree) <==> MatchArmList::placeholders()(tree),
{
    let children = tree.children();
    let wanted = ast::nodes_of::<Pat>();
    let i = tree::first(children, 0, wanted);
    tree::first_bounds(children, 0, wanted);
    assert forall|j: int| 0 <= j < children.len() implies wanted(#[trigger] children[j])
        == pattern(children[j]) by {}
    if MatchArmList::placeholders()(tree) {
        assert(first_pattern(children, i));
    }
    if wild(tree) {
        let k = choose|k: int|
            #[trigger] first_pattern(children, k) && children[k].kind() == SyntaxKind::WILDCARD_PAT;
        tree::first_is(children, 0, wanted, k);
    }
}

/// Whitespace and comments.
pub open spec fn between_arms(tree: Tree) -> bool {
    tree.kind() == SyntaxKind::WHITESPACE || tree.kind() == SyntaxKind::COMMENT
}

/// What leaves a list with the arm at `i` ends at `end`: with the comma that follows the arm, where
/// one does with nothing but whitespace and comments before it; otherwise with the arm itself.
pub open spec fn arm_ends(children: Seq<Tree>, i: int, end: int) -> bool {
    &&& i <= end < children.len()
    &&& i < end ==> children[end].kind() == SyntaxKind::COMMA
    &&& forall|k: int| i < k < end ==> between_arms(#[trigger] children[k])
    &&& i == end ==> forall|c: int|
        i < c < children.len() && (#[trigger] children[c]).kind() == SyntaxKind::COMMA
            ==> exists|k: int| i < k < c && !between_arms(#[trigger] children[k])
}

/// The first arm with the pattern `_` leaves the list, with the comma that belongs to it; all other
/// children stay, in order.
pub proof fn first_wild_arm_leaves(list: Place, i: int)
    requires
        list.is_node(),
        0 <= i < list.children().len(),
        wild(list.children()[i]),
        forall|j: int| 0 <= j < i ==> !wild(#[trigger] list.children()[j]),
    ensures
        exists|end: int|
            {
                let left = MatchArmList::without_placeholder(list);
                &&& #[trigger] arm_ends(list.children(), i, end)
                &&& left.is_node()
                &&& left.kind() == list.kind()
                &&& left.children() == list.children().take(i) + list.children().skip(end + 1)
            },
{
    let children = list.children();
    let wanted = MatchArmList::placeholders();
    assert forall|j: int| 0 <= j <= i implies wild(#[trigger] children[j])
        == wanted(children[j]) by {
        wild_is_placeholder(children[j]);
    }
    tree::first_is(children, 0, wanted, i);
    let solid = MatchArmList::solid();
    let next = tree::first(children, i + 1, solid);
    tree::first_bounds(children, i + 1, solid);
    let end = if next < children.len() && children[next].kind() == SyntaxKind::COMMA {
        next
    } else {
        i
    };
    assert forall|k: int| i < k < next implies between_arms(#[trigger] children[k]) by {
        assert(!solid(children[k]));
    }
    if end == i {
        assert forall|c: int|
            i < c < children.len() && (#[trigger] children[c]).kind()
                == SyntaxKind::COMMA implies exists|k: int|
            i < k < c && !between_arms(#[trigger] children[k]) by {
            if c < next {
                assert(between_arms(children[c]));
            } else {
                assert(solid(children[next]));
                assert(c != next);
                assert(!between_arms(children[next]));
            }
        }
    }
    assert(arm_ends(children, i, end));
    algo::with_children_keeps(list, children.take(i) + children.skip(end + 1));
    assert(children.remove(i) =~= children.take(i) + children.skip(i + 1));
}

/// A list in which no arm has the pattern `_` stays as it is.
pub proof fn no_wild_arm_no_change(list: Place)
    requires
        forall|j: int| 0 <= j < list.children().len() ==> !wild(#[trigger] list.children()[j]),
    ensures
        MatchArmList::without_placeholder(list) == list,
{
    let children = list.children();
    let wanted = MatchArmList::placeholders();
    assert forall|j: int| 0 <= j < children.len() implies !wanted(#[trigger] children[j]) by {
        wild_is_placeholder(children[j]);
        assert(!wild(children[j]));
    }
    tree::first_is(children, 0, wanted, children.len() as int);
}

/// A new arm comes directly before the closing bracket of the list, after four spaces, and the
/// bracket on a line of its own, at the indentation of the line on which the list begins. All else
/// stays.
pub proof fn arm_comes_before_bracket(list: Place, arm: Tree, end: int)
    requires
        list.is_node(),
        0 <= end < list.children().len(),
        list.children()[end].kind() == SyntaxKind::R_CURLY,
        forall|j: int|
            0 <= j < end ==> (#[trigger] list.children()[j]).kind() != SyntaxKind::R_CURLY,
    ensures
        ({
            let children = list.children();
            let longer = MatchArmList::with_arm(list, arm);
            let line = seq!['\n'] + indent::indent_at(list);
            &&& longer.is_node()
            &&& longer.kind() == list.kind()
            &&& longer.children().len() == children.len() + 3
            &&& longer.children().take(end) == children.take(end)
            &&& longer.children()[end] == Tree::Token(
                SyntaxKind::WHITESPACE,
                seq![' ', ' ', ' ', ' '],
            )
            &&& longer.children()[end + 1] == arm
            &&& longer.children()[end + 2] == Tree::Token(SyntaxKind::WHITESPACE, line)
            &&& longer.children().skip(end + 3) == children.skip(end)
        }),
{
    let children = list.children();
    let wanted = tree::of_kind(SyntaxKind::R_CURLY);
    tree::first_is(children, 0, wanted, end);
    reveal_strlit("\n");
    reveal_strlit("    ");
    let line = seq!['\n'] + indent::indent_at(list);
    assert("    "@ =~= seq![' ', ' ', ' ', ' ']);
    assert("\n"@ + indent::indent_at(list) =~= line);
    let new = seq![make::blank("    "@), arm, make::blank("\n"@ + indent::indent_at(list))];
    let changed = algo::inserted(children, end, new);
    algo::with_children_keeps(list, changed);
    assert(changed.take(end) =~= children.take(end));
    assert(changed.skip(end + 3) =~= children.skip(end));
}

/// Without a closing bracket there is no place for an arm, and the list stays as it is.
pub proof fn no_bracket_no_arm(list: Place, arm: Tree)
    requires
        forall|j: int|
            0 <= j < list.children().len() ==> (#[trigger] list.children()[j]).kind()
                != SyntaxKind::R_CURLY,
    ensures
        MatchArmList::with_arm(list, arm) == list,
{
    let children = list.children();
    tree::first_is(
        children,
        0,
        tree::of_kind(SyntaxKind::R_CURLY),
        children.len() as int,
    );
}

/// `start` is the number of the child after the opening bracket, `end` that of the closing bracket
/// after it, or of children where there is none.
pub open spec fn brackets_at(children: Seq<Tree>, start: int, end: int) -> bool {
    &&& 1 <= start <= end <= children.len()
    &&& children[start - 1].kind() == SyntaxKind::L_CURLY
    &&& forall|j: int|
        0 <= j < start - 1 ==> (#[trigger] children[j]).kind() != SyntaxKind::L_CURLY
    &&& forall|j: int|
        start <= j < end ==> (#[trigger] children[j]).kind() != SyntaxKind::R_CURLY
    &&& end < children.len() ==> children[end].kind() == SyntaxKind::R_CURLY
}

/// Whitespace that stands alone between the brackets of a list leaves it before arms are appended;
/// anything else there stays, with the whitespace around it.
pub proof fn lone_whitespace_leaves(list: Place, start: int, end: int)
    requires
        list.is_node(),
        brackets_at(list.children(), start, end),
    ensures
        ({
            let children = list.children();
            let bare = MatchArmList::stripped(list);
            &&& (forall|j: int|
                start <= j < end ==> (#[trigger] children[j]).kind() == SyntaxKind::WHITESPACE)
                ==> bare.is_node() && bare.kind() == list.kind() && bare.children()
                == children.take(start) + children.skip(end)
            &&& (exists|j: int|
                start <= j < end && (#[trigger] children[j]).kind() != SyntaxKind::WHITESPACE)
                ==> bare == list
        }),
{
    let children = list.children();
    let open = tree::of_kind(SyntaxKind::L_CURLY);
    let close = tree::of_kind(SyntaxKind::R_CURLY);
    tree::first_is(children, 0, open, start - 1);
    tree::first_is(children, start, close, end);
    algo::with_children_keeps(list, children.take(start) + children.skip(end));
    if start == end {
        assert(children.take(start) + children.skip(end) =~= children);
    }
}

/// A node that is put on several lines gets a line break directly after its opening bracket, at
/// the indentation of the line on which it begins: in place of whitespace without one, and before
/// anything else. All else stays.
pub proof fn bracket_ends_its_line(place: Place, next: int)
    requires
        place.is_node(),
        1 <= next < place.children().len(),
        place.children()[next - 1].kind() == SyntaxKind::L_CURLY,
        forall|j: int|
            0 <= j < next - 1 ==> (#[trigger] place.children()[j]).kind() != SyntaxKind::L_CURLY,
    ensures
        ({
            let children = place.children();
            let open = edit::multiline(place);
            let blank = children[next] is Token && children[next].kind()
                == SyntaxKind::WHITESPACE;
            let line = Tree::Token(
                SyntaxKind::WHITESPACE,
                seq!['\n'] + indent::indent_at(place),
            );
            &&& blank && children[next].text().contains('\n') ==> open == place
            &&& blank && !children[next].text().contains('\n') ==> open.children()
                == children.take(next) + seq![line] + children.skip(next + 1)
            &&& !blank ==> open.children() == children.take(next) + seq![line] + children.skip(
                next,
            )
            &&& open.is_node()
            &&& open.kind() == place.kind()
        }),
{
    let children = place.children();
    tree::first_is(children, 0, tree::of_kind(SyntaxKind::L_CURLY), next - 1);
    reveal_strlit("\n");
    assert("\n"@ + indent::indent_at(place) =~= seq!['\n'] + indent::indent_at(place));
    let line = make::blank("\n"@ + indent::indent_at(place));
    algo::with_children_keeps(place, children.insert(next, line));
    algo::with_children_keeps(place, children.update(next, line));
    assert(children.insert(next, line) =~= children.take(next) + seq![line] + children.skip(next));
    assert(children.update(next, line) =~= children.take(next) + seq![line] + children.skip(
        next + 1,
    ));
}

/// Without an opening bracket nothing leaves a list, and nothing is put on several lines.
pub proof fn no_opening_no_change(list: Place)
    requires
        forall|j: int|
            0 <= j < list.children().len() ==> (#[trigger] list.children()[j]).kind()
                != SyntaxKind::L_CURLY,
    ensures
        MatchArmList::stripped(list) == list,
        edit::multiline(list) == list,
        MatchArmList::opened(list) == list,
{
    let children = list.children();
    tree::first_is(
        children,
        0,
        tree::of_kind(SyntaxKind::L_CURLY),
        children.len() as int,
    );
}

/// A list is put on several lines before arms are appended to it, unless a line break is left in it
/// without the whitespace that stands alone between its brackets. Afterwards it has one.
pub proof fn opened_on_lines(list: Place, start: int, end: int)
    requires
        list.is_node(),
        brackets_at(list.children(), start, end),
    ensures
        ({
            let bare = MatchArmList::stripped(list);
            let open = MatchArmList::opened(list);
            &&& bare.here().text().contains('\n') ==> open == bare
            &&& !bare.here().text().contains('\n') ==> open == edit::multiline(bare)
            &&& end < list.children().len() ==> open.here().text().contains('\n')
        }),
{
    let bare = MatchArmList::stripped(list);
    let open = MatchArmList::opened(list);
    lone_whitespace_leaves(list, start, end);
    if !bare.here().text().contains('\n') && end < list.children().len() {
        let children = bare.children();
        assert(children.len() > start);
        assert(children[start - 1] == list.children()[start - 1]);
        assert forall|j: int| 0 <= j < start - 1 implies (#[trigger] children[j]).kind()
            != SyntaxKind::L_CURLY by {
            assert(children[j] == list.children()[j]);
        }
        tree::first_is(children, 0, tree::of_kind(SyntaxKind::L_CURLY), start - 1);
        edit_laws::multiline_once(bare);
        bracket_ends_its_line(bare, start);
        let opened = open.children();
        tree::first_bounds(opened, 0, tree::of_kind(SyntaxKind::L_CURLY));
        let next = tree::first(opened, 0, tree::of_kind(SyntaxKind::L_CURLY)) + 1;
        tree::text_of_contains(opened, '\n');
        tree::text_of_contains(children, '\n');
        assert(opened[start - 1] == children[start - 1]);
        assert forall|j: int| 0 <= j < start - 1 implies (#[trigger] opened[j]).kind()
            != SyntaxKind::L_CURLY by {
            assert(opened[j] == children[j]);
        }
        tree::first_is(opened, 0, tree::of_kind(SyntaxKind::L_CURLY), start - 1);
        assert(opened[start].text().contains('\n'));
    }
}

/// Appending arms is appending one arm after the other.
pub proof fn arms_come_one_by_one(list: Place, arms: Seq<Tree>, arm: Tree)
    ensures
        MatchArmList::with_arms(list, Seq::empty()) == list,
        MatchArmList::with_arms(list, arms.push(arm)) == MatchArmList::with_arm(
            MatchArmList::with_arms(list, arms),
            arm,
        ),
{
    assert(arms.push(arm).drop_last() =~= arms);
}

/// Arms that are listed come each on a line of its own, four spaces in, and with a comma after it.
pub proof fn arms_are_listed(arms: Seq<Tree>, i: int)
    requires
        0 <= i < arms.len(),
    ensures
        ({
            let lines = make::arm_lines(arms);
            &&& lines.len() == 3 * arms.len()
            &&& lines[3 * i] == Tree::Token(
                SyntaxKind::WHITESPACE,
                seq!['\n', ' ', ' ', ' ', ' '],
            )
            &&& lines[3 * i + 1] == arms[i]
            &&& lines[3 * i + 2] == Tree::Token(SyntaxKind::COMMA, seq![','])
        }),
    decreases arms.len(),
{
    let rest = arms.drop_last();
    reveal_strlit("\n    ");
    reveal_strlit(",");
    assert("\n    "@ =~= seq!['\n', ' ', ' ', ' ', ' ']);
    assert(","@ =~= seq![',']);
    if rest.len() == 0 {
        assert(make::arm_lines(rest).len() == 0);
    } else if i < rest.len() {
        arms_are_listed(rest, i);
    } else {
        arms_are_listed(rest, 0);
    }
}

} // verus!
