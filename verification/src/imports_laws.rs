//! What holds of the insertion of imports.
use vstd::prelude::*;

use crate::algo;
use crate::ast;
use crate::ast::{Path, UseTree};
use crate::edit_laws;
use crate::imports;
use crate::imports::ImportGroup;
use crate::make;
use crate::syntax_kind::SyntaxKind;
use crate::syntax_node::Place;
use crate::ted;
use crate::tree;
use crate::tree::Tree;

verus! {

/// A place and the places around it, innermost first.
pub open spec fn outwards(place: Place) -> Seq<Place>
    decreases place.path.len(),
{
    if place.is_root() {
        seq![place]
    } else {
        seq![place] + outwards(place.parent())
    }
}

/// Outside of macro calls both ways to find the scope of a position agree.
pub proof fn containers_agree(place: Place)
    ensures
        imports::first_scope(outwards(place)) == imports::scope_around(place),
    decreases place.path.len(),
{
    if place.is_root() {
        assert(outwards(place).skip(1) =~= Seq::<Place>::empty());
        assert(imports::first_scope(outwards(place).skip(1)) is None);
    } else {
        containers_agree(place.parent());
        assert(outwards(place).skip(1) =~= outwards(place.parent()));
    }
}

/// The first `n` steps of the way to a place.
pub open spec fn up_to(place: Place, n: int) -> Place {
    Place { tree: place.tree, path: place.path.take(n) }
}

/// The scope of a position is that of the innermost place around it that is one; where no place
/// around it is, there is none.
pub proof fn container_is_innermost(place: Place)
    ensures
        imports::scope_around(place) matches Some(scope) ==> exists|n: int|
            {
                &&& 0 <= n <= place.path.len()
                &&& imports::scope_at(#[trigger] up_to(place, n)) == Some(scope)
                &&& forall|m: int|
                    n < m <= place.path.len() ==> imports::scope_at(
                        #[trigger] up_to(place, m),
                    ) is None
            },
        imports::scope_around(place) is None ==> forall|m: int|
            0 <= m <= place.path.len() ==> imports::scope_at(#[trigger] up_to(place, m)) is None,
    decreases place.path.len(),
{
    let len = place.path.len() as int;
    assert(place.path.take(len) =~= place.path);
    assert(up_to(place, len) == place);
    if imports::scope_at(place) is None && !place.is_root() {
        let parent = place.parent();
        container_is_innermost(parent);
        assert forall|m: int| 0 <= m < len implies #[trigger] up_to(place, m) == up_to(
            parent,
            m,
        ) by {
            assert(place.path.take(m) =~= parent.path.take(m));
        }
        if let Some(scope) = imports::scope_around(place) {
            let n = choose|n: int|
                {
                    &&& 0 <= n <= parent.path.len()
                    &&& imports::scope_at(#[trigger] up_to(parent, n)) == Some(scope)
                    &&& forall|m: int|
                        n < m <= parent.path.len() ==> imports::scope_at(
                            #[trigger] up_to(parent, m),
                        ) is None
                };
            assert(imports::scope_at(up_to(place, n)) == Some(scope));
        }
    }
}

/// The path of an import, as a tree.
pub open spec fn path_in(item: Tree) -> Option<Tree> {
    let i = tree::first(item.children(), 0, ast::nodes_of::<UseTree>());
    if item is Node && item.kind() == SyntaxKind::USE && i < item.children().len() {
        let use_tree = item.children()[i];
        let j = tree::first(use_tree.children(), 0, ast::nodes_of::<Path>());
        if j < use_tree.children().len() {
            Some(use_tree.children()[j])
        } else {
            None
        }
    } else {
        None
    }
}

/// Imports.
pub open spec fn import_items() -> spec_fn(Tree) -> bool {
    |tree: Tree| path_in(tree) is Some
}

/// The group of an import.
pub open spec fn group_in(item: Tree) -> ImportGroup {
    ImportGroup::of(path_in(item)->0)
}

/// An import is one by itself, wherever it stands.
proof fn path_is_inside(place: Place)
    ensures
        imports::path_at(place) is Some <==> path_in(place.here()) is Some,
        imports::path_at(place) matches Some(path) ==> Some(path.here()) == path_in(
            place.here(),
        ),
{
    let i = tree::first(place.children(), 0, ast::nodes_of::<UseTree>());
    tree::first_bounds(place.children(), 0, ast::nodes_of::<UseTree>());
    algo::child_fits(place, i);
    let use_tree = place.child(i);
    let j = tree::first(use_tree.children(), 0, ast::nodes_of::<Path>());
    tree::first_bounds(use_tree.children(), 0, ast::nodes_of::<Path>());
    algo::child_fits(use_tree, j);
}

/// Import number `k` of the first `to` children is preceded by `k` imports.
pub(crate) proof fn imports_are_counted(scope: Place, to: int)
    requires
        0 <= to <= scope.children().len(),
    ensures
        edit_laws::those(scope.children().take(to), import_items()).len()
            == imports::imports_before(scope, to).len(),
        forall|k: int|
            0 <= k < imports::imports_before(scope, to).len() ==> {
                let at = #[trigger] imports::imports_before(scope, to)[k];
                let before = edit_laws::those(scope.children().take(at), import_items());
                &&& 0 <= at < to
                &&& import_items()(scope.children()[at])
                &&& before.len() == k
                &&& edit_laws::those(scope.children().take(to), import_items())[k]
                    == scope.children()[at]
                &&& edit_laws::those(scope.children().take(at + 1), import_items()) == before.push(
                    scope.children()[at],
                )
            },
    decreases to,
{
    let children = scope.children();
    let pred = import_items();
    if to == 0 {
        assert(children.take(0) =~= Seq::<Tree>::empty());
        edit_laws::those_of_none(children.take(0), pred);
    } else {
        imports_are_counted(scope, to - 1);
        let old = imports::imports_before(scope, to - 1);
        let all = imports::imports_before(scope, to);
        let none = Seq::<Tree>::empty();
        let last = children[to - 1];
        assert(children.take(to) =~= children.take(to - 1) + seq![last] + none);
        edit_laws::those_of_three(children.take(to - 1), seq![last], none, pred);
        edit_laws::those_of_none(none, pred);
        path_is_inside(scope.child(to - 1));
        algo::child_fits(scope, to - 1);
        let before = edit_laws::those(children.take(to - 1), pred);
        if pred(last) {
            edit_laws::those_of_one(last, pred);
            assert(edit_laws::those(children.take(to), pred) =~= before.push(last));
        } else {
            edit_laws::those_of_none(seq![last], pred);
            assert(edit_laws::those(children.take(to), pred) =~= before);
        }
        assert forall|k: int| 0 <= k < all.len() implies {
            let at = #[trigger] all[k];
            let before = edit_laws::those(children.take(at), pred);
            &&& 0 <= at < to
            &&& pred(children[at])
            &&& before.len() == k
            &&& edit_laws::those(children.take(to), pred)[k] == children[at]
            &&& edit_laws::those(children.take(at + 1), pred) == before.push(children[at])
        } by {
            if k < old.len() {
                assert(all[k] == old[k]);
            }
        }
    }
}

/// The groups of the imports of a scope are those of its children that are imports.
pub(crate) proof fn groups_are_inside(scope: Place)
    requires
        scope.is_node(),
    ensures
        imports::groups(scope).len() == edit_laws::those(scope.children(), import_items()).len(),
        forall|k: int|
            0 <= k < imports::groups(scope).len() ==> #[trigger] imports::groups(scope)[k]
                == group_in(edit_laws::those(scope.children(), import_items())[k]),
{
    let children = scope.children();
    let all = imports::imports(scope);
    imports_are_counted(scope, children.len() as int);
    assert(children.take(children.len() as int) =~= children);
    assert forall|k: int| 0 <= k < all.len() implies #[trigger] imports::groups(scope)[k]
        == group_in(edit_laws::those(children, import_items())[k]) by {
        let at = imports::imports_before(scope, children.len() as int)[k];
        assert(at == all[k]);
        path_is_inside(scope.child(at));
        algo::child_fits(scope, at);
    }
}

/// What whitespace is not.
pub open spec fn not_blank(wanted: spec_fn(Tree) -> bool) -> bool {
    forall|text: Seq<char>| !wanted(#[trigger] make::blank(text))
}

/// The number that a new import gets among the imports.
pub open spec fn slot_for(
    scope: Place,
    group: ImportGroup,
    group_imports: bool,
    earlier: Seq<bool>,
) -> int {
    let groups = imports::groups(scope);
    let count = imports::imports(scope).len() as int;
    let start = imports::first_from(0, count, imports::in_group(groups, group));
    let end = imports::first_from(start, count, imports::off_group(groups, group));
    if !group_imports {
        count
    } else if start < count {
        imports::first_from(start, end, imports::not_before(earlier))
    } else {
        imports::first_from(0, count, imports::past_group(groups, group))
    }
}

/// The number of the child before which a new import goes.
pub open spec fn target(
    scope: Place,
    group: ImportGroup,
    group_imports: bool,
    earlier: Seq<bool>,
) -> int {
    let all = imports::imports(scope);
    let groups = imports::groups(scope);
    let count = all.len() as int;
    let start = imports::first_from(0, count, imports::in_group(groups, group));
    let end = imports::first_from(start, count, imports::off_group(groups, group));
    let slot = slot_for(scope, group, group_imports, earlier);
    let last = imports::last_inner(scope, scope.children().len() as int);
    let l_curly = tree::first(scope.children(), 0, ast::tokens_of(SyntaxKind::L_CURLY));
    if count > 0 {
        // an import goes before the one that follows it in its group, or the first one of a later
        // group; otherwise after the one that precedes it
        if group_imports && slot < if start < count { end } else { count } {
            all[slot]
        } else {
            all[slot - 1] + 1
        }
    } else if !group_imports {
        0
    } else if last >= 0 {
        last + 1
    } else if scope.kind() == SyntaxKind::ITEM_LIST && l_curly < scope.children().len() {
        l_curly + 1
    } else {
        0
    }
}

/// Whitespace comes with what is inserted, and nothing else.
proof fn insertion_adds(parent: Place, at: int, new: Place, wanted: spec_fn(Tree) -> bool)
    requires
        parent.is_node(),
        0 <= at <= parent.children().len(),
        not_blank(wanted),
    ensures
        ({
            let with = ted::with_inserted(parent, at, new);
            &&& with.is_node()
            &&& with.kind() == parent.kind()
            &&& with.children().take(at) == parent.children().take(at)
            &&& edit_laws::those(with.children(), wanted) == edit_laws::those(
                parent.children().take(at),
                wanted,
            ) + edit_laws::those(seq![new.here()], wanted) + edit_laws::those(
                parent.children().skip(at),
                wanted,
            )
            &&& edit_laws::those(with.children().skip(at), wanted) == edit_laws::those(
                seq![new.here()],
                wanted,
            ) + edit_laws::those(parent.children().skip(at), wanted)
        }),
{
    let a = parent.children().take(at);
    let c = parent.children().skip(at);
    let before = ted::optional(ted::blank_before(parent, at, new));
    let after = ted::optional(ted::blank_after(parent, at, new));
    let item = seq![new.here()];
    let spaced = ted::spaced(parent, at, new);
    let children = algo::inserted(parent.children(), at, spaced);
    algo::with_children_keeps(parent, children);
    assert forall|i: int| 0 <= i < before.len() implies !wanted(#[trigger] before[i]) by {
        assert(before[i] == make::blank(before[i].text()));
    }
    assert forall|i: int| 0 <= i < after.len() implies !wanted(#[trigger] after[i]) by {
        assert(after[i] == make::blank(after[i].text()));
    }
    edit_laws::those_of_three(before, item, after, wanted);
    edit_laws::those_of_none(before, wanted);
    edit_laws::those_of_none(after, wanted);
    edit_laws::those_of_three(a, spaced, c, wanted);
    let kept = edit_laws::those(item, wanted);
    assert(edit_laws::those(spaced, wanted) =~= kept);
    assert(children.take(at) =~= a);
    let none = Seq::<Tree>::empty();
    assert(children.skip(at) =~= spaced + c + none);
    edit_laws::those_of_three(spaced, c, none, wanted);
    edit_laws::those_of_none(none, wanted);
    assert(edit_laws::those(children.skip(at), wanted) =~= kept + edit_laws::those(c, wanted));
}

/// Inserted whitespace adds nothing else.
proof fn blank_adds_nothing(parent: Place, at: int, text: Seq<char>, wanted: spec_fn(Tree) -> bool)
    requires
        parent.is_node(),
        0 <= at <= parent.children().len(),
        not_blank(wanted),
    ensures
        ({
            let with = ted::with_inserted(parent, at, Place::root(make::blank(text)));
            &&& with.is_node()
            &&& with.kind() == parent.kind()
            &&& with.children().len() >= parent.children().len()
            &&& with.children().take(at) == parent.children().take(at)
            &&& edit_laws::those(with.children(), wanted) == edit_laws::those(
                parent.children(),
                wanted,
            )
            &&& edit_laws::those(with.children().skip(at), wanted) == edit_laws::those(
                parent.children().skip(at),
                wanted,
            )
        }),
{
    let blank = Place::root(make::blank(text));
    let a = parent.children().take(at);
    let c = parent.children().skip(at);
    let none = Seq::<Tree>::empty();
    insertion_adds(parent, at, blank, wanted);
    assert(seq![blank.here()][0] == make::blank(text));
    edit_laws::those_of_none(seq![blank.here()], wanted);
    assert(parent.children() =~= a + none + c);
    edit_laws::those_of_three(a, none, c, wanted);
    edit_laws::those_of_none(none, wanted);
    algo::with_children_keeps(
        parent,
        algo::inserted(parent.children(), at, ted::spaced(parent, at, blank)),
    );
    assert(edit_laws::those(c, wanted) =~= none + edit_laws::those(c, wanted));
}

/// `with` is `scope` with `item` before its child number `at`, but for whitespace.
pub open spec fn has_added(
    scope: Place,
    with: Place,
    at: int,
    item: Tree,
    wanted: spec_fn(Tree) -> bool,
) -> bool {
    &&& with.is_node()
    &&& with.kind() == scope.kind()
    &&& 0 <= at <= scope.children().len()
    &&& edit_laws::those(with.children(), wanted) == edit_laws::those(
        scope.children().take(at),
        wanted,
    ) + edit_laws::those(seq![item], wanted) + edit_laws::those(
        scope.children().skip(at),
        wanted,
    )
}

proof fn added_plain(scope: Place, at: int, item: Place, wanted: spec_fn(Tree) -> bool)
    requires
        scope.is_node(),
        0 <= at <= scope.children().len(),
        not_blank(wanted),
    ensures
        has_added(scope, ted::with_inserted(scope, at, item), at, item.here(), wanted),
{
    insertion_adds(scope, at, item, wanted);
}

proof fn added_at_start(scope: Place, item: Place, wanted: spec_fn(Tree) -> bool)
    requires
        scope.is_node(),
        not_blank(wanted),
    ensures
        has_added(scope, imports::at_start(scope, item), 0, item.here(), wanted),
{
    let line = Place::root(make::blank("\n\n"@));
    let spaced = ted::with_inserted(scope, 0, line);
    blank_adds_nothing(scope, 0, "\n\n"@, wanted);
    insertion_adds(spaced, 0, item, wanted);
}

proof fn added_after_with_line(scope: Place, i: int, item: Place, wanted: spec_fn(Tree) -> bool)
    requires
        scope.is_node(),
        0 <= i < scope.children().len(),
        not_blank(wanted),
    ensures
        has_added(scope, imports::after_with_line(scope, i, item), i + 1, item.here(), wanted),
{
    let with = ted::with_inserted(scope, i + 1, item);
    insertion_adds(scope, i + 1, item, wanted);
    algo::with_children_keeps(
        scope,
        algo::inserted(scope.children(), i + 1, ted::spaced(scope, i + 1, item)),
    );
    blank_adds_nothing(with, i + 1, "\n"@, wanted);
}

proof fn added_before_with_line(scope: Place, i: int, item: Place, wanted: spec_fn(Tree) -> bool)
    requires
        scope.is_node(),
        0 <= i < scope.children().len(),
        not_blank(wanted),
    ensures
        has_added(scope, imports::before_with_line(scope, i, item), i, item.here(), wanted),
{
    let with = ted::with_inserted(scope, i, item);
    insertion_adds(scope, i, item, wanted);
    algo::with_children_keeps(
        scope,
        algo::inserted(scope.children(), i, ted::spaced(scope, i, item)),
    );
    blank_adds_nothing(with, ted::inserted_at(scope, i, item) + 1, "\n"@, wanted);
}

proof fn added_first(scope: Place, item: Place, wanted: spec_fn(Tree) -> bool)
    requires
        scope.is_node(),
        not_blank(wanted),
    ensures
        ({
            let last = imports::last_inner(scope, scope.children().len() as int);
            let l_curly = tree::first(scope.children(), 0, ast::tokens_of(SyntaxKind::L_CURLY));
            let at = if last >= 0 {
                last + 1
            } else if scope.kind() == SyntaxKind::ITEM_LIST && l_curly < scope.children().len() {
                l_curly + 1
            } else {
                0
            };
            has_added(scope, imports::first_import(scope, item), at, item.here(), wanted)
        }),
{
    let last = imports::last_inner(scope, scope.children().len() as int);
    let l_curly = tree::first(scope.children(), 0, ast::tokens_of(SyntaxKind::L_CURLY));
    inner_is_child(scope, scope.children().len() as int);
    tree::first_bounds(scope.children(), 0, ast::tokens_of(SyntaxKind::L_CURLY));
    if last >= 0 {
        added_after_with_line(scope, last, item, wanted);
    } else if scope.kind() == SyntaxKind::ITEM_LIST && l_curly < scope.children().len() {
        blank_adds_nothing(scope, l_curly + 1, "\n"@, wanted);
        let spaced = ted::with_inserted(scope, l_curly + 1, imports::newline());
        insertion_adds(spaced, l_curly + 1, item, wanted);
    } else {
        added_at_start(scope, item, wanted);
    }
}

proof fn inner_is_child(scope: Place, to: int)
    ensures
        imports::last_inner(scope, to) < to || imports::last_inner(scope, to) == -1,
        imports::last_inner(scope, to) >= -1,
    decreases to,
{
    if to > 0 {
        inner_is_child(scope, to - 1);
    }
}

/// A new import comes into the scope, and everything else in the scope but whitespace stays, in
/// order.
pub proof fn import_is_added(
    scope: Place,
    group: ImportGroup,
    group_imports: bool,
    item: Place,
    earlier: Seq<bool>,
    wanted: spec_fn(Tree) -> bool,
)
    requires
        scope.is_node(),
        not_blank(wanted),
    ensures
        has_added(
            scope,
            imports::with_use(scope, group, group_imports, item, earlier),
            target(scope, group, group_imports, earlier),
            item.here(),
            wanted,
        ),
{
    let all = imports::imports(scope);
    let count = all.len() as int;
    let groups = imports::groups(scope);
    let start = imports::first_from(0, count, imports::in_group(groups, group));
    let end = imports::first_from(start, count, imports::off_group(groups, group));
    let slot = slot_for(scope, group, group_imports, earlier);
    imports::first_from_bounds(0, count, imports::in_group(groups, group));
    imports::first_from_bounds(start, count, imports::off_group(groups, group));
    imports::first_from_bounds(start, end, imports::not_before(earlier));
    imports::first_from_bounds(0, count, imports::past_group(groups, group));
    imports_are_counted(scope, scope.children().len() as int);
    assert(all == imports::imports_before(scope, scope.children().len() as int));
    assert forall|k: int| 0 <= k < count implies 0 <= #[trigger] all[k]
        < scope.children().len() by {}
    if count == 0 {
        if group_imports {
            added_first(scope, item, wanted);
        } else {
            added_at_start(scope, item, wanted);
        }
    } else if !group_imports {
        added_plain(scope, all[count - 1] + 1, item, wanted);
    } else if start < count {
        assert(!imports::off_group(groups, group)(start));
        if slot < end {
            added_plain(scope, all[slot], item, wanted);
        } else {
            added_plain(scope, all[end - 1] + 1, item, wanted);
        }
    } else if slot < count {
        added_before_with_line(scope, all[slot], item, wanted);
    } else {
        added_after_with_line(scope, all[count - 1], item, wanted);
    }
}

/// As many imports stand before the child that a new import goes before as its number tells.
pub(crate) proof fn target_has_number(
    scope: Place,
    group: ImportGroup,
    group_imports: bool,
    earlier: Seq<bool>,
)
    requires
        scope.is_node(),
        0 <= target(scope, group, group_imports, earlier) <= scope.children().len(),
    ensures
        edit_laws::those(
            scope.children().take(target(scope, group, group_imports, earlier)),
            import_items(),
        ).len() == slot_for(scope, group, group_imports, earlier),
        0 <= slot_for(scope, group, group_imports, earlier) <= imports::groups(scope).len(),
{
    let slot = slot_for(scope, group, group_imports, earlier);
    let at = target(scope, group, group_imports, earlier);
    let children = scope.children();
    let all = imports::imports(scope);
    let count = all.len() as int;
    let groups = imports::groups(scope);
    let start = imports::first_from(0, count, imports::in_group(groups, group));
    let end = imports::first_from(start, count, imports::off_group(groups, group));
    imports::first_from_bounds(0, count, imports::in_group(groups, group));
    imports::first_from_bounds(start, count, imports::off_group(groups, group));
    imports::first_from_bounds(start, end, imports::not_before(earlier));
    imports::first_from_bounds(0, count, imports::past_group(groups, group));
    if group_imports && start < count {
        assert(!imports::off_group(groups, group)(start));
        assert(start < end);
    }
    imports_are_counted(scope, children.len() as int);
    assert(all == imports::imports_before(scope, children.len() as int));
    if count > 0 {
        if group_imports && slot < if start < count { end } else { count } {
            assert(at == all[slot]);
        } else {
            assert(at == all[slot - 1] + 1);
        }
    } else {
        let none = Seq::<Tree>::empty();
        assert(children =~= children.take(at) + none + children.skip(at));
        edit_laws::those_of_three(children.take(at), none, children.skip(at), import_items());
        assert(children.take(children.len() as int) =~= children);
    }
}

proof fn added_import_is_counted(scope: Place, with: Place, at: int, item: Tree)
    requires
        scope.is_node(),
        import_items()(item),
        has_added(scope, with, at, item, import_items()),
    ensures
        ({
            let slot = edit_laws::those(scope.children().take(at), import_items()).len() as int;
            &&& edit_laws::those(with.children(), import_items()) == edit_laws::those(
                scope.children(),
                import_items(),
            ).insert(slot, item)
            &&& imports::groups(with) == imports::groups(scope).insert(slot, group_in(item))
        }),
{
    let pred = import_items();
    let children = scope.children();
    let old = edit_laws::those(children, pred);
    let a = edit_laws::those(children.take(at), pred);
    let b = edit_laws::those(children.skip(at), pred);
    let none = Seq::<Tree>::empty();
    assert(children =~= children.take(at) + none + children.skip(at));
    edit_laws::those_of_three(children.take(at), none, children.skip(at), pred);
    edit_laws::those_of_none(none, pred);
    assert(old =~= a + b);
    edit_laws::those_of_one(item, pred);
    let new = edit_laws::those(with.children(), pred);
    let slot = a.len() as int;
    assert(new =~= old.insert(slot, item));
    groups_are_inside(scope);
    groups_are_inside(with);
    let groups = imports::groups(scope).insert(slot, group_in(item));
    assert forall|k: int| 0 <= k < groups.len() implies imports::groups(with)[k]
        == #[trigger] groups[k] by {
        assert(imports::groups(with)[k] == group_in(new[k]));
        if k < slot {
            assert(imports::groups(scope)[k] == group_in(old[k]));
        } else if k > slot {
            assert(imports::groups(scope)[k - 1] == group_in(old[k - 1]));
        }
    }
    assert(imports::groups(with) =~= groups);
}

/// The imports of a scope are those that it had, in order, and the new one at its number among
/// them. Their groups are those that the imports had, and that of the new one.
pub proof fn import_gets_its_number(
    scope: Place,
    group: ImportGroup,
    group_imports: bool,
    item: Place,
    earlier: Seq<bool>,
)
    requires
        scope.is_node(),
        import_items()(item.here()),
        group_in(item.here()) == group,
    ensures
        ({
            let with = imports::with_use(scope, group, group_imports, item, earlier);
            let slot = slot_for(scope, group, group_imports, earlier);
            &&& 0 <= slot <= imports::groups(scope).len()
            &&& edit_laws::those(with.children(), import_items()) == edit_laws::those(
                scope.children(),
                import_items(),
            ).insert(slot, item.here())
            &&& imports::groups(with) == imports::groups(scope).insert(slot, group)
        }),
{
    let with = imports::with_use(scope, group, group_imports, item, earlier);
    let at = target(scope, group, group_imports, earlier);
    import_is_added(scope, group, group_imports, item, earlier, import_items());
    target_has_number(scope, group, group_imports, earlier);
    added_import_is_counted(scope, with, at, item.here());
}

/// Groups that stand in the order in which new groups are inserted.
pub open spec fn ordered(groups: Seq<ImportGroup>) -> bool {
    forall|i: int, j: int|
        0 <= i <= j < groups.len() ==> (#[trigger] groups[i]).rank() <= (
        #[trigger] groups[j]).rank()
}

/// Where the groups of imports stand in order, they do so with the new import among them.
pub proof fn groups_stay_ordered(
    scope: Place,
    group: ImportGroup,
    item: Place,
    earlier: Seq<bool>,
)
    requires
        scope.is_node(),
        import_items()(item.here()),
        group_in(item.here()) == group,
        ordered(imports::groups(scope)),
    ensures
        ordered(imports::groups(imports::with_use(scope, group, true, item, earlier))),
{
    let groups = imports::groups(scope);
    let count = groups.len() as int;
    let start = imports::first_from(0, count, imports::in_group(groups, group));
    let end = imports::first_from(start, count, imports::off_group(groups, group));
    let slot = slot_for(scope, group, true, earlier);
    import_gets_its_number(scope, group, true, item, earlier);
    imports::first_from_bounds(0, count, imports::in_group(groups, group));
    imports::first_from_bounds(start, count, imports::off_group(groups, group));
    imports::first_from_bounds(start, end, imports::not_before(earlier));
    imports::first_from_bounds(0, count, imports::past_group(groups, group));
    let new = groups.insert(slot, group);
    assert forall|i: int| 0 <= i < slot implies (#[trigger] groups[i]).rank() <= group.rank() by {
        if start < count {
            assert(imports::in_group(groups, group)(start));
            if i >= start {
                assert(!imports::off_group(groups, group)(i));
            } else {
                assert(groups[i].rank() <= groups[start].rank());
            }
        } else {
            assert(!imports::past_group(groups, group)(i));
        }
    }
    assert forall|i: int| slot <= i < count implies group.rank() <= (
    #[trigger] groups[i]).rank() by {
        if start < count {
            assert(groups[start].rank() <= groups[i].rank());
        } else {
            assert(imports::past_group(groups, group)(slot));
            assert(groups[slot].rank() <= groups[i].rank());
        }
    }
    assert forall|i: int, j: int| 0 <= i <= j < new.len() implies (#[trigger] new[i]).rank() <= (
    #[trigger] new[j]).rank() by {
        let a = if i < slot {
            i
        } else {
            i - 1
        };
        let b = if j < slot {
            j
        } else {
            j - 1
        };
        if i != slot && j != slot {
            assert(new[i] == groups[a]);
            assert(new[j] == groups[b]);
        } else if i != slot {
            assert(new[i] == groups[a]);
        } else if j != slot {
            assert(new[j] == groups[b]);
        }
    }
}

/// Where the imports of a group are sorted, the new one comes after all that it sorts after, and
/// before all others: `earlier` tells of each import whether the new one sorts before it or as it
/// does. Which imports the group is made of is told by `start` and `end`.
pub proof fn group_stays_sorted(scope: Place, group: ImportGroup, earlier: Seq<bool>)
    requires
        ({
            let groups = imports::groups(scope);
            let count = groups.len() as int;
            let start = imports::first_from(0, count, imports::in_group(groups, group));
            let end = imports::first_from(start, count, imports::off_group(groups, group));
            &&& start < count
            &&& forall|i: int, j: int|
                start <= i <= j < end && #[trigger] earlier[i] ==> #[trigger] earlier[j]
        }),
    ensures
        ({
            let groups = imports::groups(scope);
            let count = groups.len() as int;
            let start = imports::first_from(0, count, imports::in_group(groups, group));
            let end = imports::first_from(start, count, imports::off_group(groups, group));
            let slot = slot_for(scope, group, true, earlier);
            &&& start <= slot <= end
            &&& forall|i: int| start <= i < slot ==> !#[trigger] earlier[i]
            &&& forall|i: int| slot <= i < end ==> #[trigger] earlier[i]
        }),
{
    let groups = imports::groups(scope);
    let count = groups.len() as int;
    let start = imports::first_from(0, count, imports::in_group(groups, group));
    let end = imports::first_from(start, count, imports::off_group(groups, group));
    let slot = slot_for(scope, group, true, earlier);
    imports::first_from_bounds(0, count, imports::in_group(groups, group));
    imports::first_from_bounds(start, count, imports::off_group(groups, group));
    imports::first_from_bounds(start, end, imports::not_before(earlier));
    assert forall|i: int| start <= i < slot implies !#[trigger] earlier[i] by {
        assert(!imports::not_before(earlier)(i));
    }
    assert forall|i: int| slot <= i < end implies #[trigger] earlier[i] by {
        assert(imports::not_before(earlier)(slot));
        assert(earlier[slot]);
    }
}

/// The item that is inserted for a path is an import of that path.
pub proof fn item_imports_its_path(path: Tree)
    requires
        ast::nodes_of::<Path>()(path),
    ensures
        import_items()(imports::item_of(path).here()),
        path_in(imports::item_of(path).here()) == Some(path),
{
    let use_tree = make::use_tree_of(path, None, None, false);
    let item = make::use_of(use_tree);
    reveal_with_fuel(tree::first, 5);
    assert(!ast::nodes_of::<UseTree>()(item.children()[0]));
    assert(!ast::nodes_of::<UseTree>()(item.children()[1]));
    assert(ast::nodes_of::<UseTree>()(item.children()[2]));
    assert(ast::nodes_of::<Path>()(use_tree.children()[0]));
}

/// In a module whose list begins with the opening bracket a new import comes after that bracket,
/// whether it joins others or is the first one of a scope with groups.
pub proof fn import_goes_after_bracket(
    scope: Place,
    group: ImportGroup,
    group_imports: bool,
    earlier: Seq<bool>,
)
    requires
        scope.is_node(),
        scope.kind() == SyntaxKind::ITEM_LIST,
        scope.children().len() > 0,
        ast::tokens_of(SyntaxKind::L_CURLY)(scope.children()[0]),
        group_imports || imports::imports(scope).len() > 0,
    ensures
        0 < target(scope, group, group_imports, earlier) <= scope.children().len(),
{
    let children = scope.children();
    let all = imports::imports(scope);
    let count = all.len() as int;
    let groups = imports::groups(scope);
    let start = imports::first_from(0, count, imports::in_group(groups, group));
    let end = imports::first_from(start, count, imports::off_group(groups, group));
    imports::first_from_bounds(0, count, imports::in_group(groups, group));
    imports::first_from_bounds(start, count, imports::off_group(groups, group));
    imports::first_from_bounds(start, end, imports::not_before(earlier));
    imports::first_from_bounds(0, count, imports::past_group(groups, group));
    if group_imports && start < count {
        assert(!imports::off_group(groups, group)(start));
    }
    imports_are_counted(scope, children.len() as int);
    assert(all == imports::imports_before(scope, children.len() as int));
    assert(!import_items()(children[0]));
    assert forall|k: int| 0 <= k < count implies 0 < #[trigger] all[k] < children.len() by {
        assert(import_items()(children[all[k]]));
    }
    inner_is_child(scope, children.len() as int);
    inner_is_inner(scope, children.len() as int);
    algo::child_fits(scope, 0);
    tree::first_bounds(children, 0, ast::tokens_of(SyntaxKind::L_CURLY));
}

pub(crate) proof fn inner_is_inner(scope: Place, to: int)
    ensures
        imports::last_inner(scope, to) >= 0 ==> imports::inner(
            scope.child(imports::last_inner(scope, to)),
        ),
    decreases to,
{
    if to > 0 {
        inner_is_inner(scope, to - 1);
    }
}

/// A total order of imports: of two imports one sorts before the other or as it does, and what
/// sorts so before a second, which does before a third, does before the third.
pub open spec fn total_order(not_after: spec_fn(Tree, Tree) -> bool) -> bool {
    &&& forall|a: Tree, b: Tree| #[trigger] not_after(a, b) || not_after(b, a)
    &&& forall|a: Tree, b: Tree, c: Tree| #[trigger]
        not_after(a, b) && #[trigger] not_after(b, c) ==> not_after(a, c)
}

/// What the order tells of a new import and each import of the scope.
pub open spec fn told(
    scope: Place,
    item: Tree,
    not_after: spec_fn(Tree, Tree) -> bool,
) -> Seq<bool> {
    Seq::new(
        imports::imports(scope).len(),
        |k: int| not_after(item, scope.children()[imports::imports(scope)[k]]),
    )
}

/// The scope with imports of `paths` inserted one after the other, with grouping.
pub open spec fn with_uses(
    scope: Place,
    paths: Seq<Tree>,
    not_after: spec_fn(Tree, Tree) -> bool,
) -> Place
    decreases paths.len(),
{
    if paths.len() == 0 {
        scope
    } else {
        let before = with_uses(scope, paths.drop_last(), not_after);
        let item = imports::item_of(paths.last());
        imports::with_use(
            before,
            ImportGroup::of(paths.last()),
            true,
            item,
            told(before, item.here(), not_after),
        )
    }
}

/// The items that are inserted for paths.
pub open spec fn items_of(paths: Seq<Tree>) -> Seq<Tree> {
    Seq::new(paths.len(), |i: int| imports::item_of(paths[i]).here())
}

/// An import of an earlier group, or one of the same group that does not sort after the other.
pub open spec fn precedes(a: Tree, b: Tree, not_after: spec_fn(Tree, Tree) -> bool) -> bool {
    ||| group_in(a).rank() < group_in(b).rank()
    ||| group_in(a) == group_in(b) && not_after(a, b)
}

/// Imports in groups, the groups in order, and the imports of each group sorted.
pub open spec fn sorted(items: Seq<Tree>, not_after: spec_fn(Tree, Tree) -> bool) -> bool {
    forall|i: int, j: int|
        0 <= i < j < items.len() ==> precedes(#[trigger] items[i], #[trigger] items[j], not_after)
}

/// Items of the kind that imports are of.
pub open spec fn use_items() -> spec_fn(Tree) -> bool {
    |tree: Tree| imports::is_use(tree)
}

/// What the order tells speaks of the imports.
proof fn told_of_imports(scope: Place, item: Tree, not_after: spec_fn(Tree, Tree) -> bool, k: int)
    requires
        scope.is_node(),
        0 <= k < imports::imports(scope).len(),
    ensures
        told(scope, item, not_after)[k] == not_after(
            item,
            edit_laws::those(scope.children(), import_items())[k],
        ),
        imports::imports(scope).len() == edit_laws::those(
            scope.children(),
            import_items(),
        ).len(),
        imports::groups(scope)[k] == group_in(
            edit_laws::those(scope.children(), import_items())[k],
        ),
{
    let children = scope.children();
    imports_are_counted(scope, children.len() as int);
    assert(children.take(children.len() as int) =~= children);
    let at = imports::imports_before(scope, children.len() as int)[k];
    assert(at == imports::imports(scope)[k]);
    groups_are_inside(scope);
}

proof fn same_rank(a: ImportGroup, b: ImportGroup)
    ensures
        a.rank() == b.rank() ==> a == b,
{
}

/// The new import comes after those that precede it, and before those that it precedes.
proof fn slot_parts(scope: Place, item: Tree, not_after: spec_fn(Tree, Tree) -> bool)
    requires
        scope.is_node(),
        total_order(not_after),
        sorted(edit_laws::those(scope.children(), import_items()), not_after),
    ensures
        ({
            let old = edit_laws::those(scope.children(), import_items());
            let slot = slot_for(scope, group_in(item), true, told(scope, item, not_after));
            &&& 0 <= slot <= old.len()
            &&& forall|i: int| 0 <= i < slot ==> precedes(#[trigger] old[i], item, not_after)
            &&& forall|i: int|
                slot <= i < old.len() ==> precedes(item, #[trigger] old[i], not_after)
        }),
{
    let group = group_in(item);
    let earlier = told(scope, item, not_after);
    let old = edit_laws::those(scope.children(), import_items());
    let groups = imports::groups(scope);
    groups_are_inside(scope);
    let count = old.len() as int;
    let in_group = imports::in_group(groups, group);
    let off_group = imports::off_group(groups, group);
    let not_before = imports::not_before(earlier);
    let past_group = imports::past_group(groups, group);
    let start = imports::first_from(0, count, in_group);
    let end = imports::first_from(start, count, off_group);
    let slot = slot_for(scope, group, true, earlier);
    imports::first_from_bounds(0, count, in_group);
    imports::first_from_bounds(start, count, off_group);
    imports::first_from_bounds(start, end, not_before);
    imports::first_from_bounds(0, count, past_group);
    assert forall|i: int| 0 <= i < slot implies precedes(#[trigger] old[i], item, not_after) by {
        told_of_imports(scope, item, not_after, i);
        same_rank(groups[i], group);
        if start < count {
            if i < start {
                told_of_imports(scope, item, not_after, start);
                assert(!in_group(i));
                assert(in_group(start));
                assert(precedes(old[i], old[start], not_after));
            } else {
                assert(!off_group(i));
                assert(!not_before(i));
                assert(!not_after(item, old[i]));
            }
        } else {
            assert(!in_group(i));
            assert(!past_group(i));
        }
    }
    assert forall|i: int| slot <= i < count implies precedes(
        item,
        #[trigger] old[i],
        not_after,
    ) by {
        told_of_imports(scope, item, not_after, i);
        same_rank(groups[i], group);
        if start < count {
            if i < end {
                told_of_imports(scope, item, not_after, slot);
                assert(!off_group(i));
                assert(!off_group(slot));
                assert(not_before(slot));
                assert(not_after(item, old[slot]));
                if slot < i {
                    assert(precedes(old[slot], old[i], not_after));
                }
            } else {
                told_of_imports(scope, item, not_after, start);
                told_of_imports(scope, item, not_after, end);
                same_rank(groups[end], group);
                assert(in_group(start));
                assert(off_group(end));
                assert(start < end);
                assert(precedes(old[start], old[end], not_after));
                if end < i {
                    assert(precedes(old[end], old[i], not_after));
                }
            }
        } else {
            told_of_imports(scope, item, not_after, slot);
            assert(past_group(slot));
            if slot < i {
                assert(precedes(old[slot], old[i], not_after));
            }
        }
    }
}

proof fn inserted_sorted(
    old: Seq<Tree>,
    slot: int,
    item: Tree,
    not_after: spec_fn(Tree, Tree) -> bool,
)
    requires
        sorted(old, not_after),
        0 <= slot <= old.len(),
        forall|i: int| 0 <= i < slot ==> precedes(#[trigger] old[i], item, not_after),
        forall|i: int| slot <= i < old.len() ==> precedes(item, #[trigger] old[i], not_after),
    ensures
        sorted(old.insert(slot, item), not_after),
        old.insert(slot, item).to_multiset() == old.to_multiset().insert(item),
{
    let new = old.insert(slot, item);
    assert forall|i: int, j: int| 0 <= i < j < new.len() implies precedes(
        #[trigger] new[i],
        #[trigger] new[j],
        not_after,
    ) by {
        let a = if i < slot {
            i
        } else {
            i - 1
        };
        let b = if j < slot {
            j
        } else {
            j - 1
        };
        if i != slot {
            assert(new[i] == old[a]);
        }
        if j != slot {
            assert(new[j] == old[b]);
        }
    }
    assert(new.remove(slot) =~= old);
    new.to_multiset_ensures();
    assert(new.remove(slot).to_multiset() =~= new.to_multiset().remove(item));
    assert(new[slot] == item);
    assert(new.contains(item));
    assert(new.to_multiset().count(item) > 0);
    assert(old.to_multiset().insert(item) =~= new.to_multiset());
}

proof fn inserted_use(scope: Place, path: Tree, not_after: spec_fn(Tree, Tree) -> bool)
    requires
        scope.is_node(),
        ast::nodes_of::<Path>()(path),
        total_order(not_after),
        sorted(edit_laws::those(scope.children(), import_items()), not_after),
    ensures
        ({
            let item = imports::item_of(path);
            let with = imports::with_use(
                scope,
                ImportGroup::of(path),
                true,
                item,
                told(scope, item.here(), not_after),
            );
            let old = edit_laws::those(scope.children(), import_items());
            let new = edit_laws::those(with.children(), import_items());
            &&& with.is_node()
            &&& with.kind() == scope.kind()
            &&& sorted(new, not_after)
            &&& new.to_multiset() == old.to_multiset().insert(item.here())
            &&& edit_laws::those(scope.children(), use_items()) == old ==> edit_laws::those(
                with.children(),
                use_items(),
            ) == new
        }),
{
    let item = imports::item_of(path);
    let group = ImportGroup::of(path);
    let earlier = told(scope, item.here(), not_after);
    let with = imports::with_use(scope, group, true, item, earlier);
    let at = target(scope, group, true, earlier);
    item_imports_its_path(path);
    import_gets_its_number(scope, group, true, item, earlier);
    slot_parts(scope, item.here(), not_after);
    inserted_sorted(
        edit_laws::those(scope.children(), import_items()),
        slot_for(scope, group, true, earlier),
        item.here(),
        not_after,
    );
    import_is_added(scope, group, true, item, earlier, import_items());
    import_is_added(scope, group, true, item, earlier, use_items());
    if edit_laws::those(scope.children(), use_items()) == edit_laws::those(
        scope.children(),
        import_items(),
    ) {
        uses_are_imports(scope.children(), at);
        edit_laws::those_of_one(item.here(), import_items());
        edit_laws::those_of_one(item.here(), use_items());
    }
}

/// Where all `use` items are imports, so they are on both sides of a place.
proof fn uses_are_imports(trees: Seq<Tree>, at: int)
    requires
        0 <= at <= trees.len(),
        edit_laws::those(trees, use_items()) == edit_laws::those(trees, import_items()),
    ensures
        edit_laws::those(trees.take(at), use_items()) == edit_laws::those(
            trees.take(at),
            import_items(),
        ),
        edit_laws::those(trees.skip(at), use_items()) == edit_laws::those(
            trees.skip(at),
            import_items(),
        ),
{
    let none = Seq::<Tree>::empty();
    let (a, b) = (trees.take(at), trees.skip(at));
    assert(trees =~= a + none + b);
    edit_laws::those_of_three(a, none, b, use_items());
    edit_laws::those_of_three(a, none, b, import_items());
    edit_laws::those_of_none(none, use_items());
    edit_laws::those_of_none(none, import_items());
    fewer_imports(a);
    fewer_imports(b);
    let (ua, ia) = (edit_laws::those(a, use_items()), edit_laws::those(a, import_items()));
    let (ub, ib) = (edit_laws::those(b, use_items()), edit_laws::those(b, import_items()));
    assert(edit_laws::those(trees, use_items()) =~= ua + ub);
    assert(edit_laws::those(trees, import_items()) =~= ia + ib);
    assert((ua + ub).len() == (ia + ib).len());
    assert(ua =~= (ua + ub).take(ua.len() as int));
    assert(ia =~= (ia + ib).take(ia.len() as int));
    assert(ub =~= (ua + ub).skip(ua.len() as int));
    assert(ib =~= (ia + ib).skip(ia.len() as int));
}

proof fn fewer_imports(trees: Seq<Tree>)
    ensures
        edit_laws::those(trees, import_items()).len() <= edit_laws::those(
            trees,
            use_items(),
        ).len(),
    decreases trees.len(),
{
    let none = Seq::<Tree>::empty();
    if trees.len() == 0 {
        edit_laws::those_of_none(trees, import_items());
    } else {
        let last = trees.last();
        let rest = trees.drop_last();
        fewer_imports(rest);
        assert(trees =~= rest + seq![last] + none);
        edit_laws::those_of_three(rest, seq![last], none, import_items());
        edit_laws::those_of_three(rest, seq![last], none, use_items());
        edit_laws::those_of_none(none, import_items());
        edit_laws::those_of_none(none, use_items());
        if import_items()(last) {
            edit_laws::those_of_one(last, import_items());
            edit_laws::those_of_one(last, use_items());
        } else {
            edit_laws::those_of_none(seq![last], import_items());
        }
    }
}

/// However many imports are inserted with grouping, in whatever order they come: the imports of the
/// scope are those that it had and those that were inserted, in groups that stand in order, and in
/// each group none sorts after one that follows it. They have to be sorted so at first, as they are
/// where there are none. Where every `use` item was an import at first, every one is.
pub proof fn insertions_sort(
    scope: Place,
    paths: Seq<Tree>,
    not_after: spec_fn(Tree, Tree) -> bool,
)
    requires
        scope.is_node(),
        forall|i: int| 0 <= i < paths.len() ==> ast::nodes_of::<Path>()(#[trigger] paths[i]),
        total_order(not_after),
        sorted(edit_laws::those(scope.children(), import_items()), not_after),
    ensures
        ({
            let with = with_uses(scope, paths, not_after);
            let old = edit_laws::those(scope.children(), import_items());
            let new = edit_laws::those(with.children(), import_items());
            &&& with.is_node()
            &&& with.kind() == scope.kind()
            &&& sorted(new, not_after)
            &&& new.to_multiset() == old.to_multiset().add(items_of(paths).to_multiset())
            &&& edit_laws::those(scope.children(), use_items()) == old ==> edit_laws::those(
                with.children(),
                use_items(),
            ) == new
        }),
    decreases paths.len(),
{
    let old = edit_laws::those(scope.children(), import_items());
    if paths.len() == 0 {
        assert(items_of(paths) =~= Seq::<Tree>::empty());
        items_of(paths).to_multiset_ensures();
        assert(old.to_multiset().add(items_of(paths).to_multiset()) =~= old.to_multiset());
    } else {
        let first = paths.drop_last();
        assert forall|i: int| 0 <= i < first.len() implies ast::nodes_of::<Path>()(
            #[trigger] first[i],
        ) by {
            assert(first[i] == paths[i]);
        }
        insertions_sort(scope, first, not_after);
        let before = with_uses(scope, first, not_after);
        assert(ast::nodes_of::<Path>()(paths[paths.len() - 1]));
        inserted_use(before, paths.last(), not_after);
        let item = imports::item_of(paths.last()).here();
        assert(items_of(paths) =~= items_of(first).push(item));
        items_of(first).to_multiset_ensures();
        assert(old.to_multiset().add(items_of(first).to_multiset()).insert(item)
            =~= old.to_multiset().add(items_of(paths).to_multiset()));
    }
}

} // verus!
