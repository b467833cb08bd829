//! Where a new import goes, told by the kinds of the children of its scope and by their tokens.
use vstd::prelude::*;

use crate::algo;
use crate::ast;
use crate::ast::{Attr, Path, UseTree};
use crate::edit_laws;
use crate::imports;
use crate::imports::ImportGroup;
use crate::imports_laws;
use crate::indent;
use crate::spacing_laws;
use crate::syntax_kind::SyntaxKind;
use crate::syntax_node::Place;
use crate::ted;
use crate::tree;
use crate::tree::Tree;

verus! {

pub open spec fn is_node_of(tree: Tree, kind: SyntaxKind) -> bool {
    tree is Node && tree.kind() == kind
}

pub open spec fn is_token_of(tree: Tree, kind: SyntaxKind) -> bool {
    tree is Token && tree.kind() == kind
}

/// Child number `i` is the first node of the kind `kind`.
pub open spec fn first_node(children: Seq<Tree>, kind: SyntaxKind, i: int) -> bool {
    &&& 0 <= i < children.len()
    &&& is_node_of(children[i], kind)
    &&& forall|j: int| 0 <= j < i ==> !is_node_of(#[trigger] children[j], kind)
}

/// A `use` item imports `path`, which is the path of its use tree.
pub open spec fn imports_path(item: Tree, path: Tree) -> bool {
    &&& is_node_of(item, SyntaxKind::USE)
    &&& exists|i: int, j: int|
        {
            &&& #[trigger] first_node(item.children(), SyntaxKind::USE_TREE, i)
            &&& #[trigger] first_node(item.children()[i].children(), SyntaxKind::PATH, j)
            &&& path == item.children()[i].children()[j]
        }
}

/// A `use` item whose use tree has a path.
pub open spec fn is_import(item: Tree) -> bool {
    exists|path: Tree| imports_path(item, path)
}

pub(crate) proof fn import_is_item(item: Tree)
    ensures
        is_import(item) <==> imports_laws::import_items()(item),
        imports_laws::path_in(item) matches Some(path) ==> imports_path(item, path),
        forall|path: Tree| #[trigger] imports_path(item, path) ==> imports_laws::path_in(item)
            == Some(path),
{
    let trees = ast::nodes_of::<UseTree>();
    let paths = ast::nodes_of::<Path>();
    let children = item.children();
    let i = tree::first(children, 0, trees);
    tree::first_bounds(children, 0, trees);
    assert forall|t: Tree| #[trigger] trees(t) == is_node_of(t, SyntaxKind::USE_TREE) by {}
    assert forall|t: Tree| #[trigger] paths(t) == is_node_of(t, SyntaxKind::PATH) by {}
    if imports_laws::path_in(item) is Some {
        let inside = children[i].children();
        let j = tree::first(inside, 0, paths);
        tree::first_bounds(inside, 0, paths);
        assert forall|k: int| 0 <= k < i implies !is_node_of(
            #[trigger] children[k],
            SyntaxKind::USE_TREE,
        ) by {
            assert(!trees(children[k]));
        }
        assert forall|k: int| 0 <= k < j implies !is_node_of(
            #[trigger] inside[k],
            SyntaxKind::PATH,
        ) by {
            assert(!paths(inside[k]));
        }
        assert(trees(children[i]));
        assert(paths(inside[j]));
        assert(first_node(children, SyntaxKind::USE_TREE, i));
        assert(first_node(children[i].children(), SyntaxKind::PATH, j));
        assert(imports_path(item, inside[j]));
    }
    assert forall|path: Tree| #[trigger] imports_path(item, path) implies imports_laws::path_in(
        item,
    ) == Some(path) by {
        let (a, b) = choose|a: int, b: int|
            {
                &&& #[trigger] first_node(children, SyntaxKind::USE_TREE, a)
                &&& #[trigger] first_node(children[a].children(), SyntaxKind::PATH, b)
                &&& path == children[a].children()[b]
            };
        assert forall|k: int| 0 <= k < a implies !trees(#[trigger] children[k]) by {
            assert(!is_node_of(children[k], SyntaxKind::USE_TREE));
        }
        let inside = children[a].children();
        assert forall|k: int| 0 <= k < b implies !paths(#[trigger] inside[k]) by {
            assert(!is_node_of(inside[k], SyntaxKind::PATH));
        }
        tree::first_is(children, 0, trees, a);
        tree::first_is(inside, 0, paths, b);
    }
}

/// No child is an import.
pub open spec fn no_imports(children: Seq<Tree>) -> bool {
    forall|i: int| 0 <= i < children.len() ==> !is_import(#[trigger] children[i])
}

proof fn none_imported(scope: Place)
    requires
        scope.is_node(),
        no_imports(scope.children()),
    ensures
        imports::imports(scope).len() == 0,
{
    let children = scope.children();
    assert forall|i: int| 0 <= i < children.len() implies !imports_laws::import_items()(
        #[trigger] children[i],
    ) by {
        import_is_item(children[i]);
        assert(!is_import(children[i]));
    }
    edit_laws::those_of_none(children, imports_laws::import_items());
    imports_laws::imports_are_counted(scope, children.len() as int);
    assert(children.take(children.len() as int) =~= children);
}

/// `#![..]`: an attribute of what it stands in.
pub open spec fn inner_attr(tree: Tree) -> bool {
    &&& is_node_of(tree, SyntaxKind::ATTR)
    &&& tree.children().len() >= 2
    &&& is_token_of(tree.children()[0], SyntaxKind::POUND)
    &&& is_token_of(tree.children()[1], SyntaxKind::BANG)
}

/// `//! ..` or `/*! .. */`: a comment on what it stands in.
pub open spec fn inner_doc(tree: Tree) -> bool {
    &&& is_token_of(tree, SyntaxKind::COMMENT)
    &&& tree.text().len() >= 3
    &&& tree.text().take(3) == seq!['/', '/', '!'] || tree.text().take(3) == seq!['/', '*', '!']
}

/// An attribute or a comment of the scope itself.
pub open spec fn of_scope(tree: Tree) -> bool {
    inner_attr(tree) || inner_doc(tree)
}

/// Every attribute begins with two tokens.
pub open spec fn attrs_begin(children: Seq<Tree>) -> bool {
    forall|i: int|
        0 <= i < children.len() && is_node_of(#[trigger] children[i], SyntaxKind::ATTR) ==> {
            &&& children[i].children().len() >= 2
            &&& children[i].children()[0] is Token
            &&& children[i].children()[1] is Token
        }
}

proof fn inner_of_scope(scope: Place, k: int)
    requires
        scope.is_node(),
        0 <= k < scope.children().len(),
    ensures
        of_scope(scope.children()[k]) ==> imports::inner(scope.child(k)),
        attrs_begin(scope.children()) && imports::inner(scope.child(k)) ==> of_scope(
            scope.children()[k],
        ),
{
    let child = scope.children()[k];
    let place = scope.child(k);
    algo::child_fits(scope, k);
    if is_node_of(child, SyntaxKind::ATTR) {
        let inside = child.children();
        if inside.len() >= 2 && inside[0] is Token && inside[1] is Token {
            attr_tokens(place);
        }
    } else if child is Token {
        let text = child.text();
        if text.len() >= 3 {
            let start = text.take(3);
            assert(start[0] == text[0] && start[1] == text[1] && start[2] == text[2]);
            if imports::inner(place) {
                assert(start =~= seq!['/', text[1], '!']);
            }
        }
    }
}

/// The first two tokens of an attribute.
proof fn attr_tokens(place: Place)
    requires
        place.is_node(),
        place.children().len() >= 2,
        place.children()[0] is Token,
        place.children()[1] is Token,
    ensures
        Attr::is_inner(place) <==> place.children()[0].kind() == SyntaxKind::POUND
            && place.children()[1].kind() == SyntaxKind::BANG,
{
    let children = place.children();
    algo::child_fits(place, 0);
    algo::child_fits(place, 1);
    reveal_with_fuel(tree::leftmost, 2);
    let none = Seq::<int>::empty();
    assert(tree::leftmost(children[0]) == none);
    assert(tree::leftmost(place.here()) =~= seq![0int]);
    assert(place.path + seq![0int] =~= place.path.push(0));
    let first = place.child(0);
    assert(place.first_token() == Some(first));
    assert(first.path.drop_last() =~= place.path);
    assert(tree::after(place.tree, first.path) == Some(place.path.push(1)));
    let second = place.child(1);
    assert(tree::leftmost(children[1]) == none);
    assert(second.path + none =~= second.path);
    assert(first.next_token() == Some(second));
}

proof fn last_inner_covers(scope: Place, to: int, k: int)
    requires
        0 <= k < to,
        imports::inner(scope.child(k)),
    ensures
        k <= imports::last_inner(scope, to) < to,
    decreases to,
{
    if k < to - 1 && !imports::inner(scope.child(to - 1)) {
        last_inner_covers(scope, to - 1, k);
    }
}

proof fn no_last_inner(scope: Place, to: int)
    requires
        forall|k: int| 0 <= k < to ==> !imports::inner(#[trigger] scope.child(k)),
    ensures
        imports::last_inner(scope, to) == -1,
    decreases to,
{
    if to > 0 {
        assert(!imports::inner(scope.child(to - 1)));
        no_last_inner(scope, to - 1);
    }
}

/// The first import of a scope comes after every attribute and every comment of the scope itself,
/// wherever they stand.
pub proof fn first_import_follows_inner(
    scope: Place,
    group: ImportGroup,
    earlier: Seq<bool>,
    k: int,
)
    requires
        scope.is_node(),
        no_imports(scope.children()),
        0 <= k < scope.children().len(),
        of_scope(scope.children()[k]),
    ensures
        k < imports_laws::target(scope, group, true, earlier) <= scope.children().len(),
{
    none_imported(scope);
    inner_of_scope(scope, k);
    last_inner_covers(scope, scope.children().len() as int, k);
}

/// The first import of a scope comes directly after the last attribute or comment of the scope
/// itself, with an empty line between the two. All children but whitespace stay, in order.
pub proof fn first_import_after_last_inner(
    scope: Place,
    group: ImportGroup,
    item: Place,
    earlier: Seq<bool>,
    k: int,
    wanted: spec_fn(Tree) -> bool,
)
    requires
        scope.is_node(),
        no_imports(scope.children()),
        attrs_begin(scope.children()),
        0 <= k < scope.children().len(),
        of_scope(scope.children()[k]),
        forall|j: int| k < j < scope.children().len() ==> !of_scope(#[trigger] scope.children()[j]),
        imports_laws::not_blank(wanted),
    ensures
        imports_laws::has_added(
            scope,
            imports::with_use(scope, group, true, item, earlier),
            k + 1,
            item.here(),
            wanted,
        ),
        item.kind() == SyntaxKind::USE ==> imports::with_use(
            scope,
            group,
            true,
            item,
            earlier,
        ).children() == spacing_laws::set_apart(scope, k + 1, false, item),
{
    let children = scope.children();
    first_import_follows_inner(scope, group, earlier, k);
    none_imported(scope);
    let last = imports::last_inner(scope, children.len() as int);
    imports_laws::inner_is_inner(scope, children.len() as int);
    inner_of_scope(scope, k);
    last_inner_covers(scope, children.len() as int, k);
    inner_of_scope(scope, last);
    assert(of_scope(children[last]));
    imports_laws::import_is_added(scope, group, true, item, earlier, wanted);
    if item.kind() == SyntaxKind::USE {
        spacing_laws::group_is_set_after(scope, k + 1, item);
    }
}

/// The first import of a scope that has no attributes and comments of its own comes directly after
/// the opening bracket of a module, and at the start of a file or of a module without one. All
/// children but whitespace stay, in order.
pub proof fn first_import_comes_first(
    scope: Place,
    group: ImportGroup,
    item: Place,
    earlier: Seq<bool>,
    at: int,
    wanted: spec_fn(Tree) -> bool,
)
    requires
        scope.is_node(),
        no_imports(scope.children()),
        attrs_begin(scope.children()),
        forall|j: int|
            0 <= j < scope.children().len() ==> !of_scope(#[trigger] scope.children()[j]),
        scope.kind() == SyntaxKind::SOURCE_FILE ==> at == 0,
        scope.kind() != SyntaxKind::SOURCE_FILE ==> scope.kind() == SyntaxKind::ITEM_LIST,
        at == 0 && scope.kind() == SyntaxKind::ITEM_LIST ==> forall|j: int|
            0 <= j < scope.children().len() ==> !is_token_of(
                #[trigger] scope.children()[j],
                SyntaxKind::L_CURLY,
            ),
        at != 0 ==> {
            &&& 0 < at <= scope.children().len()
            &&& is_token_of(scope.children()[at - 1], SyntaxKind::L_CURLY)
            &&& forall|j: int|
                0 <= j < at - 1 ==> !is_token_of(
                    #[trigger] scope.children()[j],
                    SyntaxKind::L_CURLY,
                )
        },
        imports_laws::not_blank(wanted),
    ensures
        imports_laws::has_added(
            scope,
            imports::with_use(scope, group, true, item, earlier),
            at,
            item.here(),
            wanted,
        ),
        item.kind() == SyntaxKind::USE ==> imports::with_use(
            scope,
            group,
            true,
            item,
            earlier,
        ).children() == if at == 0 {
            seq![item.here(), Tree::Token(SyntaxKind::WHITESPACE, seq!['\n', '\n'])]
                + scope.children()
        } else {
            scope.children().take(at) + seq![
                spacing_laws::line(indent::level_at(scope) + 1),
                item.here(),
                Tree::Token(SyntaxKind::WHITESPACE, seq!['\n']),
            ] + scope.children().skip(at)
        },
{
    let children = scope.children();
    none_imported(scope);
    assert forall|k: int| 0 <= k < children.len() implies !imports::inner(
        #[trigger] scope.child(k),
    ) by {
        inner_of_scope(scope, k);
        assert(!of_scope(children[k]));
    }
    no_last_inner(scope, children.len() as int);
    if scope.kind() == SyntaxKind::ITEM_LIST {
        let open = ast::tokens_of(SyntaxKind::L_CURLY);
        let found = if at == 0 {
            children.len() as int
        } else {
            at - 1
        };
        assert forall|j: int| 0 <= j < found implies !open(#[trigger] children[j]) by {
            assert(!is_token_of(children[j], SyntaxKind::L_CURLY));
        }
        tree::first_is(children, 0, open, found);
    }
    imports_laws::import_is_added(scope, group, true, item, earlier, wanted);
    if item.kind() == SyntaxKind::USE {
        if at == 0 {
            spacing_laws::start_is_set_apart(scope, item);
        } else {
            spacing_laws::bracket_is_followed(scope, at, item);
        }
    }
}

/// The imports among trees.
pub open spec fn imported() -> spec_fn(Tree) -> bool {
    |tree: Tree| is_import(tree)
}

pub(crate) proof fn imported_are_items(trees: Seq<Tree>)
    ensures
        imported() == imports_laws::import_items(),
        edit_laws::those(trees, imported()) == edit_laws::those(
            trees,
            imports_laws::import_items(),
        ),
{
    assert forall|t: Tree| #[trigger] imported()(t) == imports_laws::import_items()(t) by {
        import_is_item(t);
    }
    assert(imported() =~= imports_laws::import_items());
}

/// `groups` are the groups of the paths that `items` import.
pub open spec fn grouped(items: Seq<Tree>, groups: Seq<ImportGroup>) -> bool {
    &&& items.len() == groups.len()
    &&& forall|k: int, path: Tree|
        0 <= k < items.len() && #[trigger] imports_path(items[k], path) ==> groups[k]
            == ImportGroup::of(path)
}

/// The groups of the imports of a scope.
proof fn groups_of_imports(scope: Place, groups: Seq<ImportGroup>)
    requires
        scope.is_node(),
        grouped(edit_laws::those(scope.children(), imported()), groups),
    ensures
        groups == imports::groups(scope),
{
    let items = edit_laws::those(scope.children(), imported());
    imported_are_items(scope.children());
    imports_laws::groups_are_inside(scope);
    assert forall|k: int| 0 <= k < groups.len() implies groups[k] == #[trigger] imports::groups(
        scope,
    )[k] by {
        scope.children().lemma_filter_pred(imported(), k);
        import_is_item(items[k]);
        assert(imported()(items[k]));
        let path = imports_laws::path_in(items[k])->0;
        assert(imports_path(items[k], path));
    }
    assert(groups =~= imports::groups(scope));
}

/// The order of the groups: the standard library, other crates, this crate, this module, and the
/// modules around it.
pub open spec fn turn(group: ImportGroup) -> int {
    match group {
        ImportGroup::Std => 1,
        ImportGroup::ExternCrate => 2,
        ImportGroup::ThisCrate => 3,
        ImportGroup::ThisModule => 4,
        ImportGroup::SuperModule => 5,
    }
}

proof fn turn_is_rank(a: ImportGroup, b: ImportGroup)
    ensures
        a.rank() < b.rank() <==> turn(a) < turn(b),
        a == b <==> turn(a) == turn(b),
{
}

/// No child is `<`.
pub open spec fn no_angle(children: Seq<Tree>) -> bool {
    forall|i: int|
        0 <= i < children.len() ==> (#[trigger] children[i]).kind() != SyntaxKind::L_ANGLE
}

/// `with` is `scope` with `item` as import number `slot`: directly before the import that has that
/// number where `before`, and directly after the one that precedes it where not. All that `wanted`
/// holds of stays, in order. The item comes on a line of its own, and with an empty line between it
/// and that import where it stands `apart`.
pub open spec fn has_joined(
    scope: Place,
    with: Place,
    slot: int,
    before: bool,
    apart: bool,
    item: Place,
    wanted: spec_fn(Tree) -> bool,
) -> bool {
    let children = scope.children();
    let imports = edit_laws::those(children, imported());
    &&& 0 <= slot <= imports.len()
    &&& edit_laws::those(with.children(), imported()) == imports.insert(slot, item.here())
    &&& exists|at: int|
        {
            &&& #[trigger] imports_laws::has_added(scope, with, at, item.here(), wanted)
            &&& no_angle(children) ==> with.children() == if apart {
                spacing_laws::set_apart(scope, at, before, item)
            } else {
                spacing_laws::put_in(scope, at, item)
            }
            &&& edit_laws::those(children.take(at), imported()).len() == slot
            &&& before ==> at < children.len() && is_import(children[at])
            &&& !before ==> at > 0 && is_import(children[at - 1])
        }
}

proof fn import_has_joined(
    scope: Place,
    group: ImportGroup,
    group_imports: bool,
    item: Place,
    earlier: Seq<bool>,
    before: bool,
    apart: bool,
    wanted: spec_fn(Tree) -> bool,
)
    requires
        scope.is_node(),
        is_import(item.here()),
        imports_laws::group_in(item.here()) == group,
        imports_laws::not_blank(wanted),
        imports::imports(scope).len() > 0,
        before == ({
            let groups = imports::groups(scope);
            let count = groups.len() as int;
            let start = imports::first_from(0, count, imports::in_group(groups, group));
            let end = imports::first_from(start, count, imports::off_group(groups, group));
            group_imports && imports_laws::slot_for(scope, group, group_imports, earlier) < if start
                < count {
                end
            } else {
                count
            }
        }),
        apart == ({
            let groups = imports::groups(scope);
            let count = groups.len() as int;
            group_imports && imports::first_from(0, count, imports::in_group(groups, group))
                >= count
        }),
    ensures
        has_joined(
            scope,
            imports::with_use(scope, group, group_imports, item, earlier),
            imports_laws::slot_for(scope, group, group_imports, earlier),
            before,
            apart,
            item,
            wanted,
        ),
{
    let children = scope.children();
    let all = imports::imports(scope);
    let count = all.len() as int;
    let groups = imports::groups(scope);
    let with = imports::with_use(scope, group, group_imports, item, earlier);
    let slot = imports_laws::slot_for(scope, group, group_imports, earlier);
    let at = imports_laws::target(scope, group, group_imports, earlier);
    let start = imports::first_from(0, count, imports::in_group(groups, group));
    let end = imports::first_from(start, count, imports::off_group(groups, group));
    imports::first_from_bounds(0, count, imports::in_group(groups, group));
    imports::first_from_bounds(start, count, imports::off_group(groups, group));
    imports::first_from_bounds(start, end, imports::not_before(earlier));
    imports::first_from_bounds(0, count, imports::past_group(groups, group));
    if group_imports && start < count {
        assert(!imports::off_group(groups, group)(start));
    }
    import_is_item(item.here());
    imported_are_items(children);
    imported_are_items(with.children());
    imports_laws::import_gets_its_number(scope, group, group_imports, item, earlier);
    imports_laws::groups_are_inside(scope);
    imports_laws::import_is_added(scope, group, group_imports, item, earlier, wanted);
    imports_laws::target_has_number(scope, group, group_imports, earlier);
    imports_laws::imports_are_counted(scope, children.len() as int);
    assert(all == imports::imports_before(scope, children.len() as int));
    assert(imports_laws::has_added(scope, with, at, item.here(), wanted));
    imported_are_items(children.take(at));
    if before {
        assert(at == all[slot]);
        import_is_item(children[at]);
    } else {
        assert(at == all[slot - 1] + 1);
        import_is_item(children[at - 1]);
    }
    if no_angle(children) {
        if !apart {
            assert(with == ted::with_inserted(scope, at, item));
            spacing_laws::use_is_put_in(scope, at, item);
        } else if before {
            assert(with == imports::before_with_line(scope, at, item));
            spacing_laws::group_is_set_before(scope, at, item);
        } else {
            assert(with == imports::after_with_line(scope, at - 1, item));
            spacing_laws::group_is_set_after(scope, at, item);
        }
    }
}

/// Groups number `start` up to but without `end` are the first ones in a row that are `group`.
pub open spec fn first_run(
    groups: Seq<ImportGroup>,
    group: ImportGroup,
    start: int,
    end: int,
) -> bool {
    &&& 0 <= start < end <= groups.len()
    &&& forall|k: int| 0 <= k < start ==> #[trigger] groups[k] != group
    &&& forall|k: int| start <= k < end ==> #[trigger] groups[k] == group
    &&& end < groups.len() ==> groups[end] != group
}

/// `with` is `scope` with `item` as import number `slot`, directly before the import that had that
/// number. Where that is `end`, it comes directly after the import before it. An empty line is
/// between the two where it stands `apart`.
pub open spec fn has_joined_at(
    scope: Place,
    with: Place,
    slot: int,
    end: int,
    apart: bool,
    item: Place,
    wanted: spec_fn(Tree) -> bool,
) -> bool {
    has_joined(scope, with, slot, slot < end, apart, item, wanted)
}

/// Number `slot` is the first from `start` up to `end` that the new import sorts before, or as;
/// `end` where there is none.
pub open spec fn sorts_to(earlier: Seq<bool>, start: int, end: int, slot: int) -> bool {
    &&& start <= slot <= end
    &&& forall|k: int| start <= k < slot ==> !#[trigger] earlier[k]
    &&& slot < end ==> earlier[slot]
}

/// Number `slot` is the first whose group comes after `group`; the number of groups where there is
/// none.
pub open spec fn turns_to(groups: Seq<ImportGroup>, group: ImportGroup, slot: int) -> bool {
    &&& 0 <= slot <= groups.len()
    &&& forall|k: int| 0 <= k < slot ==> turn(#[trigger] groups[k]) < turn(group)
    &&& slot < groups.len() ==> turn(groups[slot]) > turn(group)
}

/// A new import joins the first imports in a row that belong to its group: it comes directly before
/// the first of them that does not sort before it, and directly after the last of them where all
/// do, on a line of its own. The imports of other rows do not matter.
pub proof fn import_joins_its_group(
    scope: Place,
    path: Tree,
    item: Place,
    earlier: Seq<bool>,
    groups: Seq<ImportGroup>,
    start: int,
    end: int,
    wanted: spec_fn(Tree) -> bool,
)
    requires
        scope.is_node(),
        imports_path(item.here(), path),
        grouped(edit_laws::those(scope.children(), imported()), groups),
        first_run(groups, ImportGroup::of(path), start, end),
        imports_laws::not_blank(wanted),
    ensures
        exists|slot: int|
            sorts_to(earlier, start, end, slot) && #[trigger] has_joined_at(
                scope,
                imports::with_use(scope, ImportGroup::of(path), true, item, earlier),
                slot,
                end,
                false,
                item,
                wanted,
            ),
{
    let group = ImportGroup::of(path);
    let count = groups.len() as int;
    groups_of_imports(scope, groups);
    let in_group = imports::in_group(groups, group);
    let off_group = imports::off_group(groups, group);
    let not_before = imports::not_before(earlier);
    imports::first_from_is(0, count, in_group, start);
    imports::first_from_is(start, count, off_group, end);
    imports::first_from_bounds(start, end, not_before);
    let slot = imports::first_from(start, end, not_before);
    assert forall|k: int| start <= k < slot implies !#[trigger] earlier[k] by {
        assert(!not_before(k));
    }
    import_is_item(item.here());
    assert(slot == imports_laws::slot_for(scope, group, true, earlier));
    import_has_joined(scope, group, true, item, earlier, slot < end, false, wanted);
    let with = imports::with_use(scope, group, true, item, earlier);
    assert(has_joined_at(scope, with, slot, end, false, item, wanted));
}

/// A new import of a group that the scope has no imports of comes directly before the first import
/// of a later group; where there is none, directly after all imports. An empty line is between
/// them.
pub proof fn import_opens_its_group(
    scope: Place,
    path: Tree,
    item: Place,
    earlier: Seq<bool>,
    groups: Seq<ImportGroup>,
    wanted: spec_fn(Tree) -> bool,
)
    requires
        scope.is_node(),
        imports_path(item.here(), path),
        grouped(edit_laws::those(scope.children(), imported()), groups),
        groups.len() > 0,
        forall|k: int| 0 <= k < groups.len() ==> #[trigger] groups[k] != ImportGroup::of(path),
        imports_laws::not_blank(wanted),
    ensures
        exists|slot: int|
            turns_to(groups, ImportGroup::of(path), slot) && #[trigger] has_joined_at(
                scope,
                imports::with_use(scope, ImportGroup::of(path), true, item, earlier),
                slot,
                groups.len() as int,
                true,
                item,
                wanted,
            ),
{
    let group = ImportGroup::of(path);
    let count = groups.len() as int;
    groups_of_imports(scope, groups);
    let in_group = imports::in_group(groups, group);
    let past_group = imports::past_group(groups, group);
    imports::first_from_is(0, count, in_group, count);
    imports::first_from_bounds(0, count, past_group);
    let slot = imports::first_from(0, count, past_group);
    assert forall|k: int| 0 <= k < slot implies turn(#[trigger] groups[k]) < turn(group) by {
        assert(!past_group(k));
        turn_is_rank(groups[k], group);
        turn_is_rank(group, groups[k]);
    }
    if slot < count {
        assert(past_group(slot));
        turn_is_rank(group, groups[slot]);
    }
    import_is_item(item.here());
    assert(slot == imports_laws::slot_for(scope, group, true, earlier));
    import_has_joined(scope, group, true, item, earlier, slot < count, true, wanted);
    let with = imports::with_use(scope, group, true, item, earlier);
    assert(has_joined_at(scope, with, slot, count, true, item, wanted));
}

/// Without grouping a new import comes directly after the last one.
pub proof fn ungrouped_import_comes_last(
    scope: Place,
    path: Tree,
    item: Place,
    earlier: Seq<bool>,
    groups: Seq<ImportGroup>,
    wanted: spec_fn(Tree) -> bool,
)
    requires
        scope.is_node(),
        imports_path(item.here(), path),
        grouped(edit_laws::those(scope.children(), imported()), groups),
        groups.len() > 0,
        imports_laws::not_blank(wanted),
    ensures
        has_joined(
            scope,
            imports::with_use(scope, ImportGroup::of(path), false, item, earlier),
            groups.len() as int,
            false,
            false,
            item,
            wanted,
        ),
{
    groups_of_imports(scope, groups);
    import_is_item(item.here());
    import_has_joined(scope, ImportGroup::of(path), false, item, earlier, false, false, wanted);
}

/// Without grouping the first import of a scope comes at its very start.
pub proof fn ungrouped_first_import_comes_first(
    scope: Place,
    group: ImportGroup,
    item: Place,
    earlier: Seq<bool>,
    wanted: spec_fn(Tree) -> bool,
)
    requires
        scope.is_node(),
        no_imports(scope.children()),
        imports_laws::not_blank(wanted),
    ensures
        imports_laws::has_added(
            scope,
            imports::with_use(scope, group, false, item, earlier),
            0,
            item.here(),
            wanted,
        ),
        item.kind() == SyntaxKind::USE ==> imports::with_use(
            scope,
            group,
            false,
            item,
            earlier,
        ).children() == seq![
            item.here(),
            Tree::Token(SyntaxKind::WHITESPACE, seq!['\n', '\n']),
        ] + scope.children(),
{
    none_imported(scope);
    imports_laws::import_is_added(scope, group, false, item, earlier, wanted);
    if item.kind() == SyntaxKind::USE {
        spacing_laws::start_is_set_apart(scope, item);
    }
}

} // verus!
