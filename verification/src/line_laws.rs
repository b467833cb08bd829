//! What moves when a piece of syntax is indented or dedented, and where an indentation is read
//! from, told by the texts of tokens.
use vstd::prelude::*;
use vstd::std_specs::ops::AddSpec;

use crate::indent;
use crate::indent::IndentLevel;
use crate::indent_laws;
use crate::syntax_kind::SyntaxKind;
use crate::syntax_node::Place;
use crate::text;
use crate::tree;
use crate::tree::Tree;

verus! {

/// `n` spaces.
pub open spec fn columns(n: nat) -> Seq<char> {
    Seq::new(n, |i: int| ' ')
}

/// Whitespace with a line break in it.
pub open spec fn is_break(tree: Tree) -> bool {
    &&& tree is Token
    &&& tree.kind() == SyntaxKind::WHITESPACE
    &&& exists|i: int| 0 <= i < tree.text().len() && #[trigger] tree.text()[i] == '\n'
}

/// A text without a line break.
pub open spec fn one_line(text: Seq<char>) -> bool {
    forall|i: int| 0 <= i < text.len() ==> #[trigger] text[i] != '\n'
}

proof fn break_is(tree: Tree)
    ensures
        is_break(tree) <==> indent::breaks_line(tree),
        one_line(tree.text()) <==> !tree.text().contains('\n'),
{
    let text = tree.text();
    if text.contains('\n') {
        let i = choose|i: int| 0 <= i < text.len() && text[i] == '\n';
        assert(text[i] == '\n');
    }
    if is_break(tree) {
        let i = choose|i: int| 0 <= i < text.len() && #[trigger] text[i] == '\n';
        assert(text.contains('\n'));
    }
}

/// A level of indentation is four columns, and is written as so many spaces. Levels add up.
pub proof fn level_is_four_columns(level: IndentLevel, more: u8)
    ensures
        level.columns() == 4 * level.0,
        text::blanks(level.columns()) == columns((4 * level.0) as nat),
        level.0 + more <= 255 ==> level.add_req(more) && level.add_spec(more).0 == level.0 + more,
{
    assert(text::blanks(level.columns()) =~= columns((4 * level.0) as nat));
}

/// Indenting by `n` columns puts `n` spaces after each piece of whitespace that has a line break in
/// it. Every other token stays, and the nodes around them.
pub proof fn indent_adds_columns(tree: Tree, n: nat, i: int)
    requires
        0 <= i < tree.leaves().len(),
    ensures
        ({
            let moved = indent::shifted(tree, n, true);
            let leaf = tree.leaves()[i];
            &&& moved.leaves().len() == tree.leaves().len()
            &&& is_break(leaf) ==> moved.leaves()[i] == Tree::Token(
                SyntaxKind::WHITESPACE,
                leaf.text() + columns(n),
            )
            &&& !is_break(leaf) ==> moved.leaves()[i] == leaf
        }),
{
    let leaf = tree.leaves()[i];
    indent_laws::shift_changes_line_breaks_alone(tree, n, true);
    indent_laws::shifted_leaves(tree, n, true);
    break_is(leaf);
    assert(text::blanks(n) =~= columns(n));
}

/// Dedenting by `n` columns takes them from the lines in each piece of whitespace that has a line
/// break in it. Every other token stays, and the nodes around them.
pub proof fn dedent_takes_columns(tree: Tree, n: nat, i: int)
    requires
        0 <= i < tree.leaves().len(),
    ensures
        ({
            let moved = indent::shifted(tree, n, false);
            let leaf = tree.leaves()[i];
            &&& moved.leaves().len() == tree.leaves().len()
            &&& is_break(leaf) ==> moved.leaves()[i] == Tree::Token(
                SyntaxKind::WHITESPACE,
                text::unindented(leaf.text(), n),
            )
            &&& !is_break(leaf) ==> moved.leaves()[i] == leaf
        }),
{
    let leaf = tree.leaves()[i];
    indent_laws::shift_changes_line_breaks_alone(tree, n, false);
    indent_laws::shifted_leaves(tree, n, false);
    break_is(leaf);
}

/// Moving lines leaves the nodes of a tree: each keeps its place, its kind and the number of its
/// children.
pub proof fn shift_keeps_nodes(tree: Tree, n: nat, deeper: bool, path: Seq<int>)
    requires
        tree.has(path),
    ensures
        ({
            let moved = indent::shifted(tree, n, deeper);
            &&& moved.has(path)
            &&& moved.at(path).kind() == tree.at(path).kind()
            &&& moved.at(path) is Node <==> tree.at(path) is Node
            &&& moved.at(path).children().len() == tree.at(path).children().len()
        }),
    decreases path.len(),
{
    if let Tree::Node(kind, children) = tree {
        indent::shifted_node(kind, children, n, deeper);
        if path.len() > 0 {
            shift_keeps_nodes(children[path[0]], n, deeper, path.drop_first());
        }
    }
}

/// A text of one line has no line to take columns from.
pub proof fn one_line_keeps_columns(text: Seq<char>, n: nat)
    requires
        one_line(text),
    ensures
        text::unindented(text, n) == text,
    decreases text.len(),
{
    if text.len() > 0 {
        let rest = text.skip(1);
        assert(text[0] != '\n');
        assert forall|i: int| 0 <= i < rest.len() implies #[trigger] rest[i] != '\n' by {
            assert(text[i + 1] != '\n');
        }
        one_line_keeps_columns(rest, n);
        assert(text =~= seq![text[0]] + rest);
    } else {
        assert(text::unindented(text, n) =~= text);
    }
}

/// Columns are taken from line after line: from the start of the line after the first line break,
/// where it begins with all of them; otherwise that line stays as it is. The rest follows alike.
pub proof fn columns_are_taken_line_by_line(first: Seq<char>, rest: Seq<char>, n: nat)
    requires
        one_line(first),
    ensures
        text::unindented(first + seq!['\n'] + columns(n) + rest, n) == first + seq!['\n']
            + text::unindented(rest, n),
        !columns(n).is_prefix_of(rest) ==> text::unindented(first + seq!['\n'] + rest, n) == first
            + seq!['\n'] + text::unindented(rest, n),
    decreases first.len(),
{
    let none = Seq::<char>::empty();
    let full = first + seq!['\n'] + columns(n) + rest;
    let short = first + seq!['\n'] + rest;
    assert(text::blanks(n) =~= columns(n));
    if first.len() == 0 {
        assert(full.skip(1) =~= columns(n) + rest);
        assert(full.skip(1).take(n as int) =~= text::blanks(n));
        assert(full.skip(1 + n as int) =~= rest);
        assert(full[0] == '\n');
        assert(first + seq!['\n'] =~= seq!['\n']);
        assert(short[0] == '\n');
        assert(short.skip(1) =~= rest);
        if text::begins_with_blanks(rest, n) {
            assert(columns(n) =~= rest.subrange(0, n as int));
            assert(columns(n).is_prefix_of(rest));
        }
    } else {
        let more = first.skip(1);
        assert(first[0] != '\n');
        assert forall|i: int| 0 <= i < more.len() implies #[trigger] more[i] != '\n' by {
            assert(first[i + 1] != '\n');
        }
        columns_are_taken_line_by_line(more, rest, n);
        assert(full[0] == first[0]);
        assert(short[0] == first[0]);
        assert(full.skip(1) =~= more + seq!['\n'] + columns(n) + rest);
        assert(short.skip(1) =~= more + seq!['\n'] + rest);
        assert(seq![first[0]] + (more + seq!['\n'] + text::unindented(rest, n)) =~= first + seq![
            '\n',
        ] + text::unindented(rest, n));
    }
}

/// What follows the last line break of a text.
proof fn last_line_follows(text: Seq<char>)
    ensures
        one_line(text::last_line(text)),
        one_line(text) ==> text::last_line(text) == text,
        !one_line(text) ==> exists|head: Seq<char>| #[trigger]
            (head + seq!['\n'] + text::last_line(text)) == text,
    decreases text.len(),
{
    if text.len() > 0 {
        let shorter = text.drop_last();
        last_line_follows(shorter);
        if text.last() == '\n' {
            assert(text[text.len() - 1] == '\n');
            assert(shorter + seq!['\n'] + text::last_line(text) =~= text);
        } else {
            let line = text::last_line(shorter);
            if one_line(shorter) {
                assert(line.push(text.last()) =~= text);
                assert forall|i: int| 0 <= i < text.len() implies #[trigger] text[i] != '\n' by {
                    if i < text.len() - 1 {
                        assert(shorter[i] != '\n');
                    }
                }
            } else {
                let head = choose|head: Seq<char>| #[trigger] (head + seq!['\n'] + line) == shorter;
                assert(text =~= shorter.push(text.last()));
                assert(head + seq!['\n'] + line.push(text.last()) =~= (head + seq!['\n']
                    + line).push(text.last()));
                assert(text[head.len() as int] == '\n');
            }
        }
    }
}

/// `line` follows the last line break of `text`.
pub open spec fn ends_with_line(text: Seq<char>, line: Seq<char>) -> bool {
    &&& one_line(line)
    &&& exists|head: Seq<char>| #[trigger] (head + seq!['\n'] + line) == text
}

proof fn break_ends(tree: Tree)
    requires
        is_break(tree),
    ensures
        ends_with_line(tree.text(), text::last_line(tree.text())),
{
    last_line_follows(tree.text());
}

/// The indentation of a line is read from the last whitespace with a line break before it, if no
/// other token after that has a line break in it: it is what follows that line break.
pub proof fn indentation_is_read(leaves: Seq<Tree>, k: int)
    requires
        0 <= k < leaves.len(),
        is_break(leaves[k]),
        forall|j: int|
            k < j < leaves.len() ==> (#[trigger] leaves[j]) is Token && one_line(leaves[j].text()),
    ensures
        indent::indent_of(leaves) matches Some(found) && ends_with_line(leaves[k].text(), found),
    decreases leaves.len(),
{
    let last = leaves.len() - 1;
    break_is(leaves[last]);
    if k == last {
        break_ends(leaves[k]);
    } else {
        let rest = leaves.drop_last();
        assert(one_line(leaves[last].text()));
        assert forall|j: int| k < j < rest.len() implies (#[trigger] rest[j]) is Token && one_line(
            rest[j].text(),
        ) by {
            assert(rest[j] == leaves[j]);
        }
        indentation_is_read(rest, k);
    }
}

/// No indentation is read across a token that is no whitespace and has a line break in it, nor
/// across a node without children, nor where no token has a line break.
pub proof fn no_indentation_is_read(leaves: Seq<Tree>, k: int)
    requires
        -1 <= k < leaves.len(),
        k >= 0 && leaves[k] is Token ==> leaves[k].kind() != SyntaxKind::WHITESPACE && !one_line(
            leaves[k].text(),
        ),
        forall|j: int|
            k < j < leaves.len() ==> (#[trigger] leaves[j]) is Token && one_line(leaves[j].text()),
    ensures
        indent::indent_of(leaves) is None,
    decreases leaves.len(),
{
    if leaves.len() > 0 {
        let last = leaves.len() - 1;
        break_is(leaves[last]);
        if k < last {
            let rest = leaves.drop_last();
            assert(one_line(leaves[last].text()));
            assert forall|j: int| k < j < rest.len() implies (#[trigger] rest[j]) is Token
                && one_line(rest[j].text()) by {
                assert(rest[j] == leaves[j]);
            }
            assert(k >= 0 ==> rest[k] == leaves[k]);
            no_indentation_is_read(rest, k);
        }
    }
}

/// A level is read from the last whitespace with a line break: one for every four characters that
/// follow that line break. Levels are kept in eight bits.
pub proof fn level_is_read(leaves: Seq<Tree>, k: int)
    requires
        0 <= k < leaves.len(),
        is_break(leaves[k]),
        forall|j: int|
            k < j < leaves.len() ==> (#[trigger] leaves[j]) is Token && !is_break(leaves[j]),
    ensures
        exists|found: Seq<char>|
            #[trigger] ends_with_line(leaves[k].text(), found) && indent::level_of(leaves)
                == found.len() / 4 % 256,
    decreases leaves.len(),
{
    let last = leaves.len() - 1;
    break_is(leaves[last]);
    if k == last {
        break_ends(leaves[k]);
    } else {
        let rest = leaves.drop_last();
        assert(!is_break(leaves[last]));
        assert forall|j: int| k < j < rest.len() implies (#[trigger] rest[j]) is Token && !is_break(
            rest[j],
        ) by {
            assert(rest[j] == leaves[j]);
        }
        level_is_read(rest, k);
    }
}

/// Without whitespace that has a line break in it the level is zero.
pub proof fn first_line_has_level_zero(leaves: Seq<Tree>)
    requires
        forall|j: int| 0 <= j < leaves.len() ==> !is_break(#[trigger] leaves[j]),
    ensures
        indent::level_of(leaves) == 0,
    decreases leaves.len(),
{
    if leaves.len() > 0 {
        let rest = leaves.drop_last();
        assert(!is_break(leaves[leaves.len() - 1]));
        break_is(leaves.last());
        assert forall|j: int| 0 <= j < rest.len() implies !is_break(#[trigger] rest[j]) by {
            assert(rest[j] == leaves[j]);
        }
        first_line_has_level_zero(rest);
    }
}

/// A node without children hides the lines before it: the level after it is zero up to the next
/// whitespace that has a line break in it.
pub proof fn empty_node_hides_level(leaves: Seq<Tree>, k: int)
    requires
        0 <= k < leaves.len(),
        leaves[k] is Node,
        forall|j: int| k < j < leaves.len() ==> !is_break(#[trigger] leaves[j]),
    ensures
        indent::level_of(leaves) == 0,
    decreases leaves.len(),
{
    let last = leaves.len() - 1;
    if k < last {
        let rest = leaves.drop_last();
        assert(!is_break(leaves[last]));
        break_is(leaves[last]);
        assert forall|j: int| k < j < rest.len() implies !is_break(#[trigger] rest[j]) by {
            assert(rest[j] == leaves[j]);
        }
        empty_node_hides_level(rest, k);
    }
}

/// A piece of syntax is indented as the line is on which it begins: what counts are the tokens
/// before it, and its own first token.
pub proof fn indentation_of_place(place: Place)
    ensures
        indent::level_at(place) == indent::level_of(
            place.tree.leaves_before(place.path).push(place.here().leaves()[0]),
        ),
        indent::indent_at(place) == match indent::indent_of(
            place.tree.leaves_before(place.path).push(place.here().leaves()[0]),
        ) {
            Some(found) => found,
            None => Seq::<char>::empty(),
        },
{
}

/// The leaf that stands directly after another.
proof fn after_passes(tree: Tree, path: Seq<int>)
    requires
        tree.has(path),
    ensures
        tree::after(tree, path) matches Some(p) ==> tree.has(p) && tree.leaves_before(p)
            == tree.leaves_before(path) + tree.at(path).leaves(),
        tree::after(tree, path) is None ==> tree.leaves() == tree.leaves_before(path) + tree.at(
            path,
        ).leaves(),
    decreases path.len(),
{
    if path.len() == 0 {
        assert(tree.leaves_before(path) + tree.leaves() =~= tree.leaves());
    } else {
        let up = path.drop_last();
        let i = path.last();
        assert(path =~= up.push(i));
        tree::path_step(tree, up, i);
        tree::path_step(tree, up, i + 1);
        let children = tree.at(up).children();
        assert(children.take(i + 1).drop_last() =~= children.take(i));
        assert(tree::leaves_of(children.take(i + 1)) == tree::leaves_of(children.take(i))
            + children[i].leaves());
        if i + 1 < children.len() {
            assert(tree.leaves_before(up.push(i + 1)) =~= tree.leaves_before(path) + tree.at(
                path,
            ).leaves());
        } else {
            after_passes(tree, up);
            assert(children.take(i + 1) =~= children);
            assert(tree.leaves_before(up) + tree.at(up).leaves() =~= tree.leaves_before(path)
                + tree.at(path).leaves());
        }
    }
}

/// The next token is the leaf directly after a piece of syntax; where there is none, that leaf is
/// no token, or nothing follows.
pub proof fn next_token_follows(place: Place)
    requires
        place.tree.has(place.path),
    ensures
        ({
            let passed = place.tree.leaves_before(place.path) + place.here().leaves();
            &&& place.next_token() matches Some(next) ==> {
                &&& next.is_token()
                &&& next.tree == place.tree
                &&& place.tree.leaves_before(next.path) == passed
            }
            &&& place.next_token() is None ==> place.tree.leaves() == passed || exists|p: Seq<int>|
                {
                    &&& #[trigger] place.tree.has(p)
                    &&& place.tree.leaves_before(p) == passed
                    &&& place.tree.at(p).leaves()[0] is Node
                }
        }),
{
    after_passes(place.tree, place.path);
    if let Some(p) = tree::after(place.tree, place.path) {
        let part = place.tree.at(p);
        let way = tree::leftmost(part);
        tree::leftmost_leads(part);
        tree::path_join(place.tree, p, way);
        assert(place.tree.leaves_before(p) + Seq::<Tree>::empty() =~= place.tree.leaves_before(p));
    }
}

/// The token before a piece of syntax is the leaf directly before it.
pub proof fn prev_token_precedes(place: Place)
    requires
        place.tree.has(place.path),
    ensures
        place.prev_token() matches Some(prev) ==> {
            &&& prev.is_token()
            &&& prev.tree == place.tree
            &&& place.tree.leaves_before(place.path) == place.tree.leaves_before(prev.path).push(
                prev.here(),
            )
        },
        place.prev_token() is None ==> place.tree.leaves_before(place.path).len() == 0
            || place.tree.leaves_before(place.path).last() is Node,
{
    indent::prev_token_leaves(place);
}

/// The first token of a piece of syntax is its first leaf.
pub proof fn first_token_comes_first(place: Place)
    requires
        place.tree.has(place.path),
    ensures
        place.first_token() matches Some(token) ==> {
            &&& token.is_token()
            &&& token.tree == place.tree
            &&& token.here() == place.here().leaves()[0]
            &&& place.tree.leaves_before(token.path) == place.tree.leaves_before(place.path)
        },
        place.first_token() is None ==> place.here().leaves()[0] is Node,
{
    let part = place.here();
    let way = tree::leftmost(part);
    tree::leftmost_leads(part);
    tree::path_join(place.tree, place.path, way);
    assert(place.tree.leaves_before(place.path) + Seq::<Tree>::empty()
        =~= place.tree.leaves_before(place.path));
}

} // verus!
