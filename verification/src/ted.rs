//! Insertion of items among others, with the whitespace that has to stand between them.
use vstd::prelude::*;
use vstd::string::StringExecFns;

use crate::algo;
use crate::indent;
use crate::indent::IndentLevel;
use crate::make;
use crate::stamp::Marks;
use crate::syntax_kind::SyntaxKind;
use crate::syntax_node;
use crate::syntax_node::{Place, SyntaxElement, SyntaxNode};
use crate::text;
use crate::tree;
use crate::tree::{SyntaxTree, Tree};

verus! {

/// A line break, and the start of a line at a level of indentation.
pub open spec fn new_line(level: nat) -> Tree {
    make::blank("\n"@ + text::blanks(level * 4))
}

/// The whitespace that has to come between two neighbours, of which at least one is new: a `use`
/// item begins a line, at the indentation of what stands before it, or of the deeper of two `use`
/// items; most other neighbours are parted by a space.
pub open spec fn between(left: Place, right: Place) -> Option<Tree> {
    if left.kind() == SyntaxKind::WHITESPACE || right.kind() == SyntaxKind::WHITESPACE {
        None
    } else if right.kind() == SyntaxKind::SEMICOLON || right.kind() == SyntaxKind::COMMA {
        None
    } else if left.kind() == SyntaxKind::L_ANGLE || right.kind() == SyntaxKind::R_ANGLE {
        None
    } else if left.kind() == SyntaxKind::AMP && right.kind() == SyntaxKind::LIFETIME {
        None
    } else if right.kind() == SyntaxKind::USE {
        let before = indent::level_at(left);
        let after = indent::level_at(right);
        if left.kind() == SyntaxKind::USE && after > before {
            Some(new_line(after))
        } else {
            Some(new_line(before))
        }
    } else {
        Some(make::blank(" "@))
    }
}

/// The whitespace that comes before `new`, where it is inserted as child number `at`. A `use` item
/// directly after the opening bracket of a list of items is indented one level deeper than the
/// list.
pub open spec fn blank_before(parent: Place, at: int, new: Place) -> Option<Tree> {
    if at == 0 {
        None
    } else if parent.kind() == SyntaxKind::ITEM_LIST && new.kind() == SyntaxKind::USE
        && parent.children()[at - 1].kind() == SyntaxKind::L_CURLY {
        Some(new_line(indent::level_at(parent) + 1))
    } else {
        between(parent.child(at - 1), new)
    }
}

/// The whitespace that comes after `new`, where it is inserted as child number `at`.
pub open spec fn blank_after(parent: Place, at: int, new: Place) -> Option<Tree> {
    if at == parent.children().len() {
        None
    } else {
        between(new, parent.child(at))
    }
}

/// No tree, or one.
pub open spec fn optional(tree: Option<Tree>) -> Seq<Tree> {
    match tree {
        Some(tree) => seq![tree],
        None => Seq::empty(),
    }
}

/// `new`, with the whitespace that it needs as child number `at`.
pub open spec fn spaced(parent: Place, at: int, new: Place) -> Seq<Tree> {
    optional(blank_before(parent, at, new)) + seq![new.here()] + optional(
        blank_after(parent, at, new),
    )
}

/// `parent` with `new` inserted before its child number `at`.
pub open spec fn with_inserted(parent: Place, at: int, new: Place) -> Place {
    parent.with_children(algo::inserted(parent.children(), at, spaced(parent, at, new)))
}

/// The marks of whitespace that is there or not.
pub open spec fn blank_marks(blank: Option<Tree>) -> Seq<Marks> {
    match blank {
        Some(_) => seq![Marks::Token],
        None => Seq::empty(),
    }
}

/// The marks of the children of `parent`, where `new`, with the marks `mark`, is inserted before
/// its child number `at`.
pub open spec fn with_inserted_marks(
    parent: Place,
    at: int,
    new: Place,
    marks: Seq<Marks>,
    mark: Marks,
) -> Seq<Marks> {
    algo::inserted(
        marks,
        at,
        blank_marks(blank_before(parent, at, new)) + seq![mark] + blank_marks(
            blank_after(parent, at, new),
        ),
    )
}

/// The number that `new` itself gets among the children.
pub open spec fn inserted_at(parent: Place, at: int, new: Place) -> int {
    at + optional(blank_before(parent, at, new)).len()
}

/// `new_line` as a tree.
fn line(level: usize) -> (r: SyntaxTree)
    requires
        level <= 256,
    ensures
        r@ == new_line(level as nat),
        r.marks() == Marks::Token,
{
    let mut text = "\n".to_owned();
    text.append(text::spaces(level * 4).as_str());
    SyntaxTree::Token(SyntaxKind::WHITESPACE, text)
}

/// What optional trees hold.
pub open spec fn view_of(tree: Option<SyntaxTree>) -> Option<Tree> {
    match tree {
        Some(tree) => Some(tree@),
        None => None,
    }
}

fn ws_between(left: &SyntaxElement, right: &SyntaxElement) -> (r: Option<SyntaxTree>)
    ensures
        view_of(r) == between(left@, right@),
        r matches Some(blank) ==> blank.marks() == Marks::Token,
{
    let l = left.kind();
    let r = right.kind();
    if l == SyntaxKind::WHITESPACE || r == SyntaxKind::WHITESPACE {
        return None;
    }
    if r == SyntaxKind::SEMICOLON || r == SyntaxKind::COMMA {
        return None;
    }
    if l == SyntaxKind::L_ANGLE || r == SyntaxKind::R_ANGLE {
        return None;
    }
    if l == SyntaxKind::AMP && r == SyntaxKind::LIFETIME {
        return None;
    }
    if r == SyntaxKind::USE {
        let before = IndentLevel::from_element(left).0;
        let after = IndentLevel::from_element(right).0;
        if l == SyntaxKind::USE && after > before {
            return Some(line(after as usize));
        }
        return Some(line(before as usize));
    }
    Some(SyntaxTree::Token(SyntaxKind::WHITESPACE, " ".to_owned()))
}

fn ws_before(parent: &SyntaxNode, at: usize, new: &SyntaxElement) -> (r: Option<SyntaxTree>)
    requires
        at <= parent@.children().len(),
    ensures
        view_of(r) == blank_before(parent@, at as int, new@),
        r matches Some(blank) ==> blank.marks() == Marks::Token,
{
    if at == 0 {
        return None;
    }
    let prev = parent.child(at - 1);
    proof {
        algo::child_fits(parent@, at - 1);
    }
    if prev.kind() == SyntaxKind::L_CURLY && new.kind() == SyntaxKind::USE && parent.kind()
        == SyntaxKind::ITEM_LIST {
        let level = IndentLevel::from_node(parent).0;
        return Some(line(level as usize + 1));
    }
    ws_between(&prev, new)
}

fn ws_after(parent: &SyntaxNode, at: usize, new: &SyntaxElement) -> (r: Option<SyntaxTree>)
    requires
        at <= parent@.children().len(),
    ensures
        view_of(r) == blank_after(parent@, at as int, new@),
        r matches Some(blank) ==> blank.marks() == Marks::Token,
{
    if at == parent.children().len() {
        return None;
    }
    ws_between(new, &parent.child(at))
}

/// `parent` with `new` inserted before its child number `at`, and with the whitespace that it needs
/// there.
pub fn insert(parent: &SyntaxNode, at: usize, new: &SyntaxElement) -> (r: SyntaxNode)
    requires
        at <= parent@.children().len(),
    ensures
        r@ == with_inserted(parent@, at as int, new@),
        syntax_node::marks_edited(
            parent@,
            parent.marks(),
            r.marks(),
            with_inserted_marks(
                parent@,
                at as int,
                new@,
                parent.marks().at(parent@.path).children(),
                new.marks(),
            ),
        ),
        parent@.is_node(),
{
    let before = ws_before(parent, at, new);
    let after = ws_after(parent, at, new);
    let ghost first = optional(view_of(before));
    let ghost second = optional(view_of(after));
    let ghost first_marks = blank_marks(view_of(before));
    let ghost second_marks = blank_marks(view_of(after));
    let mut elements: Vec<SyntaxTree> = Vec::new();
    if let Some(ws) = before {
        elements.push(ws);
    }
    assert(tree::views(elements@) =~= first);
    elements.push(new.green().clone());
    assert(tree::views(elements@) =~= first + seq![new@.here()]);
    if let Some(ws) = after {
        elements.push(ws);
    }
    assert(tree::views(elements@) =~= spaced(parent@, at as int, new@));
    assert(tree::all_marks(elements@) =~= first_marks + seq![new.marks()] + second_marks);
    parent.with_children(algo::splice(parent.children(), at, at, elements))
}

/// The number that `new` itself gets among the children, where it is inserted before child number
/// `at`.
pub(crate) fn place_of_inserted(parent: &SyntaxNode, at: usize, new: &SyntaxElement) -> (r: usize)
    requires
        at < parent@.children().len(),
    ensures
        r == inserted_at(parent@, at as int, new@),
{
    let count = parent.child_count();
    match ws_before(parent, at, new) {
        Some(_) => at + 1,
        None => at,
    }
}

/// `parent` with its child number `at` exchanged for `new`.
pub fn replace(parent: &SyntaxNode, at: usize, new: &SyntaxElement) -> (r: SyntaxNode)
    requires
        at < parent@.children().len(),
    ensures
        r@ == parent@.with_children(parent@.children().update(at as int, new@.here())),
        syntax_node::marks_edited(
            parent@,
            parent.marks(),
            r.marks(),
            parent.marks().at(parent@.path).children().update(at as int, new.marks()),
        ),
        parent@.is_node(),
{
    let elements = vec![new.green().clone()];
    let children = parent.children();
    assert(children.len() == parent@.children().len());
    let changed = algo::splice(children, at, at + 1, elements);
    assert(tree::views(elements@) =~= seq![new@.here()]);
    assert(tree::views(changed@) =~= parent@.children().update(at as int, new@.here()));
    assert(tree::all_marks(elements@) =~= seq![new.marks()]);
    assert(tree::all_marks(changed@) =~= parent.marks().at(parent@.path).children().update(
        at as int,
        new.marks(),
    ));
    parent.with_children(changed)
}

} // verus!
