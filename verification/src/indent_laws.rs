//! What holds of indentation.
use vstd::prelude::*;

use crate::indent;
use crate::syntax_kind::SyntaxKind;
use crate::syntax_node::Place;
use crate::text;
use crate::tree;
use crate::tree::Tree;

verus! {

/// Trees that are shifted one by one.
pub open spec fn shifted_each(trees: Seq<Tree>, n: nat, deeper: bool) -> Seq<Tree> {
    Seq::new(trees.len(), |i: int| indent::shifted(trees[i], n, deeper))
}

proof fn shifted_children(kind: SyntaxKind, children: Seq<Tree>, n: nat, deeper: bool)
    ensures
        indent::shifted(Tree::Node(kind, children), n, deeper) == Tree::Node(
            kind,
            shifted_each(children, n, deeper),
        ),
{
    indent::shifted_node(kind, children, n, deeper);
    assert(indent::shifted(Tree::Node(kind, children), n, deeper)->Node_1 =~= shifted_each(
        children,
        n,
        deeper,
    ));
}

pub(crate) proof fn shifted_leaves(tree: Tree, n: nat, deeper: bool)
    ensures
        indent::shifted(tree, n, deeper).leaves() == shifted_each(tree.leaves(), n, deeper),
    decreases tree,
{
    match tree {
        Tree::Node(kind, children) => {
            shifted_children(kind, children, n, deeper);
            if children.len() == 0 {
                assert(shifted_each(children, n, deeper) =~= children);
            } else {
                shifted_leaves_of(children, n, deeper);
            }
            assert(indent::shifted(tree, n, deeper).leaves() =~= shifted_each(
                tree.leaves(),
                n,
                deeper,
            ));
        },
        Tree::Token(kind, text) => {
            assert(indent::shifted(tree, n, deeper).leaves() =~= shifted_each(
                tree.leaves(),
                n,
                deeper,
            ));
        },
    }
}

proof fn shifted_leaves_of(trees: Seq<Tree>, n: nat, deeper: bool)
    ensures
        tree::leaves_of(shifted_each(trees, n, deeper)) == shifted_each(
            tree::leaves_of(trees),
            n,
            deeper,
        ),
    decreases trees,
{
    let moved = shifted_each(trees, n, deeper);
    if trees.len() > 0 {
        shifted_leaves_of(trees.drop_last(), n, deeper);
        shifted_leaves(trees.last(), n, deeper);
        assert(moved.drop_last() =~= shifted_each(trees.drop_last(), n, deeper));
    }
    assert(tree::leaves_of(moved) =~= shifted_each(tree::leaves_of(trees), n, deeper));
}

/// Moving a tree to the right or to the left changes nothing but whitespace with line breaks: there
/// are as many tokens as before, and every other token is as it was. So the very first token stays
/// where it is, unless it is such whitespace.
pub proof fn shift_changes_line_breaks_alone(tree: Tree, n: nat, deeper: bool)
    ensures
        ({
            let moved = indent::shifted(tree, n, deeper);
            &&& moved.kind() == tree.kind()
            &&& moved is Node <==> tree is Node
            &&& moved.leaves().len() == tree.leaves().len()
            &&& forall|i: int|
                0 <= i < tree.leaves().len() ==> {
                    &&& moved.leaves()[i].kind() == (#[trigger] tree.leaves()[i]).kind()
                    &&& !indent::breaks_line(tree.leaves()[i]) ==> moved.leaves()[i]
                        == tree.leaves()[i]
                }
        }),
{
    shifted_leaves(tree, n, deeper);
    let moved = indent::shifted(tree, n, deeper);
    if let Tree::Node(kind, children) = tree {
        indent::shifted_node(kind, children, n, deeper);
    }
    assert forall|i: int| 0 <= i < tree.leaves().len() implies {
        &&& moved.leaves()[i].kind() == (#[trigger] tree.leaves()[i]).kind()
        &&& !indent::breaks_line(tree.leaves()[i]) ==> moved.leaves()[i] == tree.leaves()[i]
    } by {
        leaves_are_leaves(tree, i);
        let leaf = tree.leaves()[i];
        if let Tree::Node(kind, children) = leaf {
            shifted_children(kind, children, n, deeper);
            assert(shifted_each(children, n, deeper) =~= children);
        }
    }
}

/// A leaf has no children.
proof fn leaves_are_leaves(tree: Tree, i: int)
    requires
        0 <= i < tree.leaves().len(),
    ensures
        tree.leaves()[i].children().len() == 0,
    decreases tree,
{
    if let Tree::Node(kind, children) = tree {
        if children.len() > 0 {
            all_are_leaves(children, i);
        }
    }
}

proof fn all_are_leaves(trees: Seq<Tree>, i: int)
    requires
        0 <= i < tree::leaves_of(trees).len(),
    ensures
        tree::leaves_of(trees)[i].children().len() == 0,
    decreases trees,
{
    let before = tree::leaves_of(trees.drop_last());
    if i < before.len() {
        all_are_leaves(trees.drop_last(), i);
    } else {
        leaves_are_leaves(trees.last(), i - before.len());
    }
}

proof fn unindented_by_nothing(text: Seq<char>)
    ensures
        text::unindented(text, 0) == text,
    decreases text.len(),
{
    if text.len() > 0 {
        unindented_by_nothing(text.skip(1));
        assert(text.skip(1).take(0) =~= text::blanks(0));
        assert(text =~= seq![text[0]] + text.skip(1));
    } else {
        assert(text::unindented(text, 0) =~= text);
    }
}

/// Moving a tree by no columns leaves it as it is. So does resetting the indentation of what is not
/// indented.
pub proof fn shift_by_nothing(tree: Tree, deeper: bool)
    ensures
        indent::shifted(tree, 0, deeper) == tree,
    decreases tree,
{
    match tree {
        Tree::Node(kind, children) => {
            shifted_children(kind, children, 0, deeper);
            assert forall|i: int| 0 <= i < children.len() implies indent::shifted(
                children[i],
                0,
                deeper,
            ) == children[i] by {
                shift_by_nothing(children[i], deeper);
            }
            assert(shifted_each(children, 0, deeper) =~= children);
        },
        Tree::Token(kind, text) => {
            unindented_by_nothing(text);
            assert(text + text::blanks(0) =~= text);
        },
    }
}

/// A line break stays where spaces follow it.
proof fn still_breaks(tree: Tree, n: nat)
    requires
        indent::breaks_line(tree),
    ensures
        indent::breaks_line(indent::shifted(tree, n, true)),
{
    let text = tree.text();
    let i = choose|i: int| 0 <= i < text.len() && text[i] == '\n';
    assert((text + text::blanks(n))[i] == '\n');
}

/// Indenting twice indents by the sum.
pub proof fn indent_twice(tree: Tree, a: nat, b: nat)
    ensures
        indent::shifted(indent::shifted(tree, a, true), b, true) == indent::shifted(
            tree,
            a + b,
            true,
        ),
    decreases tree,
{
    match tree {
        Tree::Node(kind, children) => {
            shifted_children(kind, children, a, true);
            shifted_children(kind, shifted_each(children, a, true), b, true);
            shifted_children(kind, children, a + b, true);
            assert forall|i: int| 0 <= i < children.len() implies indent::shifted(
                indent::shifted(children[i], a, true),
                b,
                true,
            ) == indent::shifted(children[i], a + b, true) by {
                indent_twice(children[i], a, b);
            }
            assert(shifted_each(shifted_each(children, a, true), b, true) =~= shifted_each(
                children,
                a + b,
                true,
            ));
        },
        Tree::Token(kind, text) => {
            if indent::breaks_line(tree) {
                still_breaks(tree, a);
                assert(text + text::blanks(a) + text::blanks(b) =~= text + text::blanks(a + b));
            }
        },
    }
}

/// `p` is the place of the last line break of `text`; only spaces follow it, and no line before it
/// begins with `n` spaces.
pub open spec fn ends_blank(text: Seq<char>, n: nat, p: int) -> bool {
    &&& 0 <= p < text.len()
    &&& text[p] == '\n'
    &&& forall|j: int| p < j < text.len() ==> text[j] == ' '
    &&& forall|i: int|
        0 <= i < p && #[trigger] text[i] == '\n' ==> !text::begins_with_blanks(text.skip(i + 1), n)
}

/// Whitespace that taking `n` columns away again restores: nothing but spaces follows its last line
/// break, and no other of its lines is already indented by `n` columns.
pub open spec fn restorable(text: Seq<char>, n: nat) -> bool {
    n == 0 || exists|p: int| ends_blank(text, n, p)
}

/// A text without line breaks has no lines to move.
proof fn unindented_line(text: Seq<char>, n: nat)
    requires
        !text.contains('\n'),
    ensures
        text::unindented(text, n) == text,
    decreases text.len(),
{
    if text.len() > 0 {
        assert(text[0] != '\n');
        assert forall|i: int| 0 <= i < text.skip(1).len() implies text.skip(1)[i] != '\n' by {
            assert(text[i + 1] != '\n');
        }
        unindented_line(text.skip(1), n);
        assert(text =~= seq![text[0]] + text.skip(1));
    } else {
        assert(text::unindented(text, n) =~= text);
    }
}

proof fn restored(text: Seq<char>, n: nat, p: int)
    requires
        ends_blank(text, n, p),
    ensures
        text::unindented(text + text::blanks(n), n) == text,
    decreases p,
{
    let longer = text + text::blanks(n);
    let rest = text.skip(1);
    assert(longer.skip(1) =~= rest + text::blanks(n));
    assert(text =~= seq![text[0]] + rest);
    if p == 0 {
        assert(longer.skip(1).take(n as int) =~= text::blanks(n));
        assert(longer.skip(1 + n as int) =~= rest);
        assert forall|i: int| 0 <= i < rest.len() implies rest[i] != '\n' by {
            assert(text[i + 1] == ' ');
        }
        unindented_line(rest, n);
    } else {
        assert(rest[p - 1] == '\n');
        assert forall|j: int| p - 1 < j < rest.len() implies rest[j] == ' ' by {
            assert(text[j + 1] == ' ');
        }
        assert forall|i: int| 0 <= i < p - 1 && #[trigger] rest[i] == '\n' implies
            !text::begins_with_blanks(rest.skip(i + 1), n) by {
            assert(text[i + 1] == '\n');
            assert(text.skip(i + 2) =~= rest.skip(i + 1));
        }
        restored(rest, n, p - 1);
        if text[0] == '\n' {
            assert(!text::begins_with_blanks(text.skip(0int + 1), n));
            assert(!text::begins_with_blanks(rest, n));
            if text::begins_with_blanks(longer.skip(1), n) {
                let taken = longer.skip(1).take(n as int);
                if n <= rest.len() {
                    assert(taken =~= rest.take(n as int));
                } else {
                    assert(taken[p - 1] == '\n');
                    assert(text::blanks(n)[p - 1] == ' ');
                }
            }
        }
    }
}

/// Nothing is added when lines move to the left; where nothing is taken away, nothing changes.
proof fn unindented_shortens(text: Seq<char>, n: nat)
    ensures
        text::unindented(text, n).len() <= text.len(),
        text::unindented(text, n).len() == text.len() ==> text::unindented(text, n) == text,
    decreases text.len(),
{
    if text.len() == 0 {
        assert(text::unindented(text, n) =~= text);
    } else if text[0] == '\n' && text::begins_with_blanks(text.skip(1), n) {
        unindented_shortens(text.skip(1 + n as int), n);
        if n == 0 {
            assert(text =~= seq!['\n'] + text.skip(1));
        }
    } else {
        unindented_shortens(text.skip(1), n);
        assert(text =~= seq![text[0]] + text.skip(1));
    }
}

/// A text that spaces can be moved from its end to its start of is made of spaces.
proof fn blanks_all_through(text: Seq<char>, n: nat, i: int)
    requires
        n > 0,
        (text + text::blanks(n)).skip(n as int) == text,
        0 <= i < text.len(),
    ensures
        text[i] == ' ',
    decreases text.len() - i,
{
    let longer = text + text::blanks(n);
    assert(longer.skip(n as int)[i] == longer[i + n]);
    if i + n < text.len() {
        blanks_all_through(text, n, i + n);
    }
}

proof fn only_restorable(text: Seq<char>, n: nat)
    requires
        n > 0,
        text::unindented(text + text::blanks(n), n) == text,
    ensures
        restorable(text, n),
    decreases text.len(),
{
    let longer = text + text::blanks(n);
    if text.len() == 0 {
        assert forall|i: int| 0 <= i < longer.len() implies longer[i] != '\n' by {}
        unindented_line(longer, n);
    } else {
        let rest = text.skip(1);
        assert(longer.skip(1) =~= rest + text::blanks(n));
        let kept = text::unindented(longer, n).skip(1);
        assert(kept =~= rest);
        if text[0] == '\n' && text::begins_with_blanks(longer.skip(1), n) {
            let left = longer.skip(1 + n as int);
            assert(kept =~= text::unindented(left, n));
            unindented_shortens(left, n);
            assert(left == rest);
            assert((rest + text::blanks(n)).skip(n as int) =~= left);
            assert forall|j: int| 0 < j < text.len() implies text[j] == ' ' by {
                blanks_all_through(rest, n, j - 1);
                assert(rest[j - 1] == text[j]);
            }
            assert(ends_blank(text, n, 0));
        } else {
            assert(kept =~= text::unindented(longer.skip(1), n));
            only_restorable(rest, n);
            let p = choose|p: int| ends_blank(rest, n, p);
            assert(text[p + 1] == rest[p]);
            assert forall|j: int| p + 1 < j < text.len() implies text[j] == ' ' by {
                assert(text[j] == rest[j - 1]);
            }
            assert forall|i: int| 0 <= i < p + 1 && #[trigger] text[i] == '\n' implies
                !text::begins_with_blanks(text.skip(i + 1), n) by {
                if i == 0 {
                    assert(text.skip(1) =~= rest);
                    if text::begins_with_blanks(rest, n) {
                        assert(longer.skip(1).take(n as int) =~= rest.take(n as int));
                    }
                } else {
                    assert(rest[i - 1] == '\n');
                    assert(rest.skip(i) =~= text.skip(i + 1));
                }
            }
            assert(ends_blank(text, n, p + 1));
        }
    }
}

/// Indenting and then dedenting by the same level gives back the tree, if and only if each piece of
/// whitespace with a line break is such that taking the columns away again restores it.
pub proof fn dedent_undoes_indent(tree: Tree, n: nat)
    ensures
        indent::shifted(indent::shifted(tree, n, true), n, false) == tree <==> forall|i: int|
            0 <= i < tree.leaves().len() && indent::breaks_line(#[trigger] tree.leaves()[i])
                ==> restorable(tree.leaves()[i].text(), n),
{
    let moved = indent::shifted(tree, n, true);
    let back = indent::shifted(moved, n, false);
    shifted_leaves(tree, n, true);
    shifted_leaves(moved, n, false);
    if back == tree {
        assert forall|i: int|
            0 <= i < tree.leaves().len() && indent::breaks_line(
                #[trigger] tree.leaves()[i],
            ) implies restorable(tree.leaves()[i].text(), n) by {
            let leaf = tree.leaves()[i];
            still_breaks(leaf, n);
            assert(back.leaves()[i] == indent::shifted(moved.leaves()[i], n, false));
            if n > 0 {
                only_restorable(leaf.text(), n);
            }
        }
    }
    if forall|i: int|
        0 <= i < tree.leaves().len() && indent::breaks_line(#[trigger] tree.leaves()[i])
            ==> restorable(tree.leaves()[i].text(), n) {
        restored_tree(tree, n);
    }
}

proof fn restored_tree(tree: Tree, n: nat)
    requires
        forall|i: int|
            0 <= i < tree.leaves().len() && indent::breaks_line(#[trigger] tree.leaves()[i])
                ==> restorable(tree.leaves()[i].text(), n),
    ensures
        indent::shifted(indent::shifted(tree, n, true), n, false) == tree,
    decreases tree,
{
    match tree {
        Tree::Node(kind, children) => {
            shifted_children(kind, children, n, true);
            shifted_children(kind, shifted_each(children, n, true), n, false);
            assert forall|i: int| 0 <= i < children.len() implies indent::shifted(
                indent::shifted(children[i], n, true),
                n,
                false,
            ) == children[i] by {
                let part = children[i].leaves();
                assert forall|j: int|
                    0 <= j < part.len() && indent::breaks_line(
                        #[trigger] part[j],
                    ) implies restorable(
                    part[j].text(),
                    n,
                ) by {
                    let k = leaf_of_child(children, i, j);
                    assert(tree.leaves()[k] == part[j]);
                }
                restored_tree(children[i], n);
            }
            assert(shifted_each(shifted_each(children, n, true), n, false) =~= children);
        },
        Tree::Token(kind, text) => {
            if indent::breaks_line(tree) {
                assert(tree.leaves()[0] == tree);
                still_breaks(tree, n);
                if n == 0 {
                    unindented_by_nothing(text);
                    assert(text + text::blanks(0) =~= text);
                } else {
                    restored(text, n, choose|p: int| ends_blank(text, n, p));
                }
            }
        },
    }
}

/// Where a leaf of one of several trees stands among the leaves of all.
proof fn leaf_of_child(trees: Seq<Tree>, i: int, j: int) -> (k: int)
    requires
        0 <= i < trees.len(),
        0 <= j < trees[i].leaves().len(),
    ensures
        0 <= k < tree::leaves_of(trees).len(),
        tree::leaves_of(trees)[k] == trees[i].leaves()[j],
    decreases trees.len(),
{
    let before = tree::leaves_of(trees.drop_last());
    if i == trees.len() - 1 {
        before.len() + j
    } else {
        leaf_of_child(trees.drop_last(), i, j)
    }
}

/// A node is at the level of its first token.
pub proof fn level_of_first_token(place: Place)
    requires
        place.tree.has(place.path),
    ensures
        place.first_token() matches Some(token) ==> indent::level_at(token) == indent::level_at(
            place,
        ),
        place.first_token() is None ==> indent::level_at(place) == 0,
{
    indent::first_token_leaves(place);
}

/// Where the indentation of a line is known, the level counts its columns.
pub proof fn level_counts_indent(leaves: Seq<Tree>)
    ensures
        indent::indent_of(leaves) matches Some(columns) ==> indent::level_of(leaves)
            == columns.len() / 4 % 256,
    decreases leaves.len(),
{
    if leaves.len() > 0 {
        level_counts_indent(leaves.drop_last());
    }
}

/// Whether a line break decides on the level of the last of `leaves`.
pub open spec fn on_later_line(leaves: Seq<Tree>) -> bool
    decreases leaves.len(),
{
    if leaves.len() == 0 || leaves.last() is Node {
        false
    } else {
        indent::breaks_line(leaves.last()) || on_later_line(leaves.drop_last())
    }
}

proof fn longer_last_line(text: Seq<char>, m: nat)
    ensures
        text::last_line(text + text::blanks(m)).len() == text::last_line(text).len() + m,
    decreases m,
{
    let longer = text + text::blanks(m);
    if m == 0 {
        assert(longer =~= text);
    } else {
        longer_last_line(text, (m - 1) as nat);
        assert(longer.drop_last() =~= text + text::blanks((m - 1) as nat));
    }
}

/// Columns and levels count alike.
proof fn levels_add(columns: nat, k: nat)
    ensures
        (columns + 4 * k) / 4 % 256 == (columns / 4 % 256 + k) % 256,
{
    assert((columns + 4 * k) / 4 == columns / 4 + k);
    vstd::arithmetic::div_mod::lemma_add_mod_noop_right(k as int, (columns / 4) as int, 256);
}

proof fn deeper_leaves(leaves: Seq<Tree>, k: nat)
    requires
        forall|i: int| 0 <= i < leaves.len() ==> (#[trigger] leaves[i]).children().len() == 0,
    ensures
        indent::level_of(shifted_each(leaves, 4 * k, true)) == if on_later_line(leaves) {
            (indent::level_of(leaves) + k) % 256
        } else {
            0
        },
        !on_later_line(leaves) ==> indent::level_of(leaves) == 0,
    decreases leaves.len(),
{
    let moved = shifted_each(leaves, 4 * k, true);
    if leaves.len() > 0 {
        let leaf = leaves.last();
        assert(leaves[leaves.len() - 1].children().len() == 0);
        assert(moved.drop_last() =~= shifted_each(leaves.drop_last(), 4 * k, true));
        assert forall|i: int| 0 <= i < leaves.drop_last().len() implies (
        #[trigger] leaves.drop_last()[i]).children().len() == 0 by {
            assert(leaves[i].children().len() == 0);
        }
        deeper_leaves(leaves.drop_last(), k);
        assert(moved.last() == indent::shifted(leaf, 4 * k, true));
        match leaf {
            Tree::Node(kind, children) => {
                indent::shifted_node(kind, children, 4 * k, true);
            },
            Tree::Token(_, text) => {
                if indent::breaks_line(leaf) {
                    still_breaks(leaf, 4 * k);
                    longer_last_line(text, 4 * k);
                    levels_add(text::last_line(text).len(), k);
                    assert(moved.last().text() == text + text::blanks(4 * k));
                }
            },
        }
    }
}

proof fn shifted_leaves_before(tree: Tree, path: Seq<int>, n: nat)
    requires
        tree.has(path),
    ensures
        indent::shifted(tree, n, true).leaves_before(path) == shifted_each(
            tree.leaves_before(path),
            n,
            true,
        ),
        indent::shifted(tree, n, true).at(path) == indent::shifted(tree.at(path), n, true),
    decreases path.len(),
{
    let moved = indent::shifted(tree, n, true);
    if path.len() == 0 {
        assert(moved.leaves_before(path) =~= shifted_each(tree.leaves_before(path), n, true));
    } else {
        let children = tree.children();
        shifted_children(tree.kind(), children, n, true);
        shifted_leaves_of(children.take(path[0]), n, true);
        shifted_leaves_before(children[path[0]], path.drop_first(), n);
        assert(moved.children().take(path[0]) =~= shifted_each(children.take(path[0]), n, true));
        assert(moved.leaves_before(path) =~= shifted_each(tree.leaves_before(path), n, true));
    }
}

proof fn before_are_leaves(tree: Tree, path: Seq<int>, i: int)
    requires
        tree.has(path),
        0 <= i < tree.leaves_before(path).len(),
    ensures
        tree.leaves_before(path)[i].children().len() == 0,
    decreases path.len(),
{
    if path.len() > 0 {
        let before = tree::leaves_of(tree.children().take(path[0]));
        if i < before.len() {
            all_are_leaves(tree.children().take(path[0]), i);
        } else {
            before_are_leaves(tree.children()[path[0]], path.drop_first(), i - before.len());
        }
    }
}

/// Indenting a tree by `k` levels moves what stands on a later line of it by `k` levels; levels are
/// kept in eight bits. What stands on its first line has the level zero, before and after.
pub proof fn indent_deepens_later_lines(place: Place, k: nat)
    requires
        place.tree.has(place.path),
    ensures
        ({
            let moved = Place {
                tree: indent::shifted(place.tree, 4 * k, true),
                path: place.path,
            };
            if on_later_line(place.leaves_to()) {
                indent::level_at(moved) == (indent::level_at(place) + k) % 256
            } else {
                indent::level_at(moved) == 0 && indent::level_at(place) == 0
            }
        }),
{
    let moved = Place { tree: indent::shifted(place.tree, 4 * k, true), path: place.path };
    let leaves = place.leaves_to();
    shifted_leaves_before(place.tree, place.path, 4 * k);
    shifted_leaves(place.here(), 4 * k, true);
    tree::leaves_not_empty(place.here());
    assert(moved.leaves_to() =~= shifted_each(leaves, 4 * k, true));
    assert forall|i: int| 0 <= i < leaves.len() implies (#[trigger] leaves[i]).children().len()
        == 0 by {
        if i < leaves.len() - 1 {
            before_are_leaves(place.tree, place.path, i);
        } else {
            leaves_are_leaves(place.here(), 0);
        }
    }
    deeper_leaves(leaves, k);
}

} // verus!
