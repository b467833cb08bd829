//! What whitespace comes into a scope with an import, told by the kinds of what stands around it.
use vstd::prelude::*;

use crate::algo;
use crate::imports;
use crate::indent;
use crate::make;
use crate::syntax_kind::SyntaxKind;
use crate::syntax_node::Place;
use crate::ted;
use crate::text;
use crate::tree::Tree;

verus! {

/// A line break, and four spaces for each level of indentation.
pub open spec fn line(level: nat) -> Tree {
    Tree::Token(SyntaxKind::WHITESPACE, seq!['\n'] + Seq::new(level * 4, |i: int| ' '))
}

pub open spec fn is_blank(tree: Tree) -> bool {
    tree.kind() == SyntaxKind::WHITESPACE
}

/// What comes before a new `use` item as child number `at`: a line break, unless it comes first or
/// whitespace stands there. The item is indented as what stands before it; directly after the
/// opening bracket of the items of a module, one level deeper than those. After another `use` item
/// it keeps its own indentation where that is deeper.
pub open spec fn before_use(parent: Place, at: int, new: Place) -> Seq<Tree> {
    let left = parent.child(at - 1);
    if at == 0 || is_blank(parent.children()[at - 1]) {
        Seq::empty()
    } else if parent.kind() == SyntaxKind::ITEM_LIST && parent.children()[at - 1].kind()
        == SyntaxKind::L_CURLY {
        seq![line(indent::level_at(parent) + 1)]
    } else if parent.children()[at - 1].kind() == SyntaxKind::USE && indent::level_at(new)
        > indent::level_at(left) {
        seq![line(indent::level_at(new))]
    } else {
        seq![line(indent::level_at(left))]
    }
}

/// What comes after a new `use` item as child number `at`: nothing where it comes last, whitespace
/// stands there or what follows closes something; a line break before another `use` item, at the
/// deeper indentation of the two; and a space before anything else.
pub open spec fn after_use(parent: Place, at: int, new: Place) -> Seq<Tree> {
    let kind = parent.children()[at].kind();
    let right = parent.child(at);
    if at == parent.children().len() || is_blank(parent.children()[at]) {
        Seq::empty()
    } else if kind == SyntaxKind::SEMICOLON || kind == SyntaxKind::COMMA || kind
        == SyntaxKind::R_ANGLE {
        Seq::empty()
    } else if kind == SyntaxKind::USE && indent::level_at(right) > indent::level_at(new) {
        seq![line(indent::level_at(right))]
    } else if kind == SyntaxKind::USE {
        seq![line(indent::level_at(new))]
    } else {
        seq![Tree::Token(SyntaxKind::WHITESPACE, seq![' '])]
    }
}

/// The children of `parent` with a new `use` item before number `at`, on a line of its own.
pub open spec fn put_in(parent: Place, at: int, new: Place) -> Seq<Tree> {
    parent.children().take(at) + before_use(parent, at, new) + seq![new.here()] + after_use(
        parent,
        at,
        new,
    ) + parent.children().skip(at)
}

/// The children of `parent` with a new `use` item before number `at`, and a line break more between
/// the item and what follows it where `before`, and what it follows where not.
pub open spec fn set_apart(parent: Place, at: int, before: bool, new: Place) -> Seq<Tree> {
    let gap = seq![Tree::Token(SyntaxKind::WHITESPACE, seq!['\n'])];
    let none = Seq::<Tree>::empty();
    parent.children().take(at) + (if before {
        none
    } else {
        gap
    }) + before_use(parent, at, new) + seq![new.here()] + (if before {
        gap
    } else {
        none
    }) + after_use(parent, at, new) + parent.children().skip(at)
}

proof fn line_is(level: nat)
    ensures
        ted::new_line(level) == line(level),
{
    reveal_strlit("\n");
    assert("\n"@ + text::blanks(level * 4) =~= seq!['\n'] + Seq::new(level * 4, |i: int| ' '));
}

/// A new `use` item comes in with the line breaks that it needs, and nothing else changes.
pub proof fn use_is_put_in(parent: Place, at: int, new: Place)
    requires
        parent.is_node(),
        0 <= at <= parent.children().len(),
        new.kind() == SyntaxKind::USE,
        at > 0 ==> parent.children()[at - 1].kind() != SyntaxKind::L_ANGLE,
    ensures
        ted::with_inserted(parent, at, new).children() == put_in(parent, at, new),
        ted::inserted_at(parent, at, new) == at + before_use(parent, at, new).len(),
{
    let children = parent.children();
    algo::child_fits(parent, at - 1);
    algo::child_fits(parent, at);
    line_is(indent::level_at(parent) + 1);
    line_is(indent::level_at(new));
    line_is(indent::level_at(parent.child(at - 1)));
    line_is(indent::level_at(parent.child(at)));
    reveal_strlit(" ");
    assert(" "@ =~= seq![' ']);
    assert(ted::optional(ted::blank_before(parent, at, new)) =~= before_use(parent, at, new));
    assert(ted::optional(ted::blank_after(parent, at, new)) =~= after_use(parent, at, new));
    algo::with_children_keeps(
        parent,
        algo::inserted(children, at, ted::spaced(parent, at, new)),
    );
    assert(algo::inserted(children, at, ted::spaced(parent, at, new)) =~= put_in(parent, at, new));
}

/// Whitespace comes in as it is.
pub proof fn whitespace_is_put_in(parent: Place, at: int, text: Seq<char>)
    requires
        parent.is_node(),
        0 <= at <= parent.children().len(),
    ensures
        ({
            let blank = Tree::Token(SyntaxKind::WHITESPACE, text);
            let with = ted::with_inserted(parent, at, Place::root(blank));
            &&& with.is_node()
            &&& with.kind() == parent.kind()
            &&& with.children() == parent.children().take(at) + seq![blank]
                + parent.children().skip(at)
        }),
{
    let blank = Place::root(make::blank(text));
    let children = parent.children();
    algo::child_fits(parent, at - 1);
    algo::child_fits(parent, at);
    let spaced = ted::spaced(parent, at, blank);
    assert(spaced =~= seq![blank.here()]);
    algo::with_children_keeps(parent, algo::inserted(children, at, spaced));
}

/// A `use` item that begins a group comes in with an empty line before the imports that follow it.
pub proof fn group_is_set_before(parent: Place, at: int, new: Place)
    requires
        parent.is_node(),
        0 <= at < parent.children().len(),
        new.kind() == SyntaxKind::USE,
        at > 0 ==> parent.children()[at - 1].kind() != SyntaxKind::L_ANGLE,
    ensures
        imports::before_with_line(parent, at, new).children() == set_apart(parent, at, true, new),
{
    let with = ted::with_inserted(parent, at, new);
    use_is_put_in(parent, at, new);
    algo::with_children_keeps(
        parent,
        algo::inserted(parent.children(), at, ted::spaced(parent, at, new)),
    );
    let next = ted::inserted_at(parent, at, new) + 1;
    reveal_strlit("\n");
    assert("\n"@ =~= seq!['\n']);
    whitespace_is_put_in(with, next, "\n"@);
    assert(imports::before_with_line(parent, at, new).children() =~= set_apart(
        parent,
        at,
        true,
        new,
    ));
}

/// A `use` item that begins a group comes in with an empty line after what it follows.
pub proof fn group_is_set_after(parent: Place, at: int, new: Place)
    requires
        parent.is_node(),
        0 < at <= parent.children().len(),
        new.kind() == SyntaxKind::USE,
        parent.children()[at - 1].kind() != SyntaxKind::L_ANGLE,
    ensures
        imports::after_with_line(parent, at - 1, new).children() == set_apart(
            parent,
            at,
            false,
            new,
        ),
{
    let with = ted::with_inserted(parent, at, new);
    use_is_put_in(parent, at, new);
    algo::with_children_keeps(
        parent,
        algo::inserted(parent.children(), at, ted::spaced(parent, at, new)),
    );
    reveal_strlit("\n");
    assert("\n"@ =~= seq!['\n']);
    whitespace_is_put_in(with, at, "\n"@);
    assert(imports::after_with_line(parent, at - 1, new).children() =~= set_apart(
        parent,
        at,
        false,
        new,
    ));
}

/// At the very start an import comes with an empty line after it.
pub proof fn start_is_set_apart(parent: Place, new: Place)
    requires
        parent.is_node(),
        new.kind() == SyntaxKind::USE,
    ensures
        imports::at_start(parent, new).children() == seq![
            new.here(),
            Tree::Token(SyntaxKind::WHITESPACE, seq!['\n', '\n']),
        ] + parent.children(),
{
    reveal_strlit("\n\n");
    assert("\n\n"@ =~= seq!['\n', '\n']);
    let spaced = ted::with_inserted(parent, 0, Place::root(make::blank("\n\n"@)));
    whitespace_is_put_in(parent, 0, "\n\n"@);
    use_is_put_in(spaced, 0, new);
    assert(imports::at_start(parent, new).children() =~= seq![
        new.here(),
        Tree::Token(SyntaxKind::WHITESPACE, seq!['\n', '\n']),
    ] + parent.children());
}

/// Directly after the opening bracket of the items of a module an import comes on a line of its
/// own, one level deeper than the items, and with a line break after it.
pub proof fn bracket_is_followed(parent: Place, at: int, new: Place)
    requires
        parent.is_node(),
        parent.kind() == SyntaxKind::ITEM_LIST,
        0 < at <= parent.children().len(),
        parent.children()[at - 1].kind() == SyntaxKind::L_CURLY,
        new.kind() == SyntaxKind::USE,
    ensures
        ted::with_inserted(
            ted::with_inserted(parent, at, imports::newline()),
            at,
            new,
        ).children() == parent.children().take(at) + seq![
            line(indent::level_at(parent) + 1),
            new.here(),
            Tree::Token(SyntaxKind::WHITESPACE, seq!['\n']),
        ] + parent.children().skip(at),
{
    let with = ted::with_inserted(parent, at, imports::newline());
    reveal_strlit("\n");
    assert("\n"@ =~= seq!['\n']);
    whitespace_is_put_in(parent, at, "\n"@);
    assert(with.children()[at - 1] == parent.children()[at - 1]);
    use_is_put_in(with, at, new);
    level_is_kept(parent, with.children());
    assert(ted::with_inserted(with, at, new).children() =~= parent.children().take(at) + seq![
        line(indent::level_at(parent) + 1),
        new.here(),
        Tree::Token(SyntaxKind::WHITESPACE, seq!['\n']),
    ] + parent.children().skip(at));
}

/// The level of a node does not change with its children but the first.
proof fn level_is_kept(place: Place, children: Seq<Tree>)
    requires
        place.is_node(),
        place.children().len() > 0,
        children.len() > 0,
        children[0] == place.children()[0],
    ensures
        indent::level_at(place.with_children(children)) == indent::level_at(place),
{
    algo::with_children_keeps(place, children);
    crate::tree::leaves_of_first(children);
    crate::tree::leaves_of_first(place.children());
}

/// Neighbours of which at least one is new and between which nothing comes: one is whitespace, the
/// right one closes something, or the two belong together.
pub open spec fn joins_up(left: Tree, right: Tree) -> bool {
    ||| is_blank(left)
    ||| is_blank(right)
    ||| right.kind() == SyntaxKind::SEMICOLON
    ||| right.kind() == SyntaxKind::COMMA
    ||| right.kind() == SyntaxKind::R_ANGLE
    ||| left.kind() == SyntaxKind::L_ANGLE
    ||| left.kind() == SyntaxKind::AMP && right.kind() == SyntaxKind::LIFETIME
}

/// What is no `use` item comes in with spaces around it where it does not join up with its
/// neighbours, and with a line break before a `use` item that follows it.
pub proof fn other_is_put_in(parent: Place, at: int, new: Place)
    requires
        parent.is_node(),
        0 <= at <= parent.children().len(),
        new.kind() != SyntaxKind::USE,
    ensures
        ({
            let children = parent.children();
            let none = Seq::<Tree>::empty();
            let space = seq![Tree::Token(SyntaxKind::WHITESPACE, seq![' '])];
            ted::with_inserted(parent, at, new).children() == children.take(at) + (if at == 0
                || joins_up(children[at - 1], new.here()) {
                none
            } else {
                space
            }) + seq![new.here()] + (if at == children.len() || joins_up(
                new.here(),
                children[at],
            ) {
                none
            } else if children[at].kind() == SyntaxKind::USE {
                seq![line(indent::level_at(new))]
            } else {
                space
            }) + children.skip(at)
        }),
{
    let children = parent.children();
    algo::child_fits(parent, at - 1);
    algo::child_fits(parent, at);
    line_is(indent::level_at(new));
    reveal_strlit(" ");
    assert(" "@ =~= seq![' ']);
    let spaced = ted::spaced(parent, at, new);
    algo::with_children_keeps(parent, algo::inserted(children, at, spaced));
    let none = Seq::<Tree>::empty();
    let space = seq![Tree::Token(SyntaxKind::WHITESPACE, seq![' '])];
    let before = if at == 0 || joins_up(children[at - 1], new.here()) {
        none
    } else {
        space
    };
    let after = if at == children.len() || joins_up(new.here(), children[at]) {
        none
    } else if children[at].kind() == SyntaxKind::USE {
        seq![line(indent::level_at(new))]
    } else {
        space
    };
    assert(ted::optional(ted::blank_before(parent, at, new)) =~= before);
    assert(ted::optional(ted::blank_after(parent, at, new)) =~= after);
    assert(algo::inserted(children, at, spaced) =~= children.take(at) + before + seq![new.here()]
        + after + children.skip(at));
}

} // verus!
