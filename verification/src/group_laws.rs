//! Which group a path belongs to, which scope a position has and which imports a new one is merged
//! with, told by kinds and tokens.
use std::cmp::Ordering;
use vstd::prelude::*;

use crate::algo;
use crate::ast;
use crate::ast::{
    AstNode, ItemList, NameRef, Path, PathSegment, Use, UseTree, UseTreeList,
};
use crate::edit_laws;
use crate::imports;
use crate::imports::{ImportGroup, MergeBehavior};
use crate::imports_laws;
use crate::make;
use crate::placing_laws;
use crate::syntax_kind::SyntaxKind;
use crate::syntax_node::Place;
use crate::tree;
use crate::tree::Tree;

verus! {

/// No child is a node of the kind `kind`.
pub open spec fn no_node(children: Seq<Tree>, kind: SyntaxKind) -> bool {
    forall|j: int|
        0 <= j < children.len() ==> !placing_laws::is_node_of(#[trigger] children[j], kind)
}

pub(crate) proof fn first_of_kind<N: AstNode>(children: Seq<Tree>, kind: SyntaxKind)
    requires
        forall|k: SyntaxKind| #[trigger] N::accepts(k) == (k == kind),
    ensures
        no_node(children, kind) ==> tree::first(children, 0, ast::nodes_of::<N>())
            == children.len(),
        forall|i: int| #[trigger]
            placing_laws::first_node(children, kind, i) ==> tree::first(
                children,
                0,
                ast::nodes_of::<N>(),
            ) == i,
{
    let wanted = ast::nodes_of::<N>();
    assert forall|j: int| 0 <= j < children.len() implies wanted(#[trigger] children[j])
        == placing_laws::is_node_of(children[j], kind) by {
        assert(N::accepts(children[j].kind()) == (children[j].kind() == kind));
    }
    if no_node(children, kind) {
        tree::first_is(children, 0, wanted, children.len() as int);
    }
    assert forall|i: int| #[trigger]
        placing_laws::first_node(children, kind, i) implies tree::first(children, 0, wanted)
        == i by {
        tree::first_is(children, 0, wanted, i);
    }
}

/// A path that another path qualifies belongs to the group of that path: the first segment decides.
pub proof fn qualifier_decides_on_group(path: Tree, i: int)
    requires
        path is Node,
        placing_laws::first_node(path.children(), SyntaxKind::PATH, i),
    ensures
        ImportGroup::of(path) == ImportGroup::of(path.children()[i]),
        ImportGroup::begins_with_type(path) == ImportGroup::begins_with_type(path.children()[i]),
{
    first_of_kind::<Path>(path.children(), SyntaxKind::PATH);
    assert(Path::first_segment_of(path) == Path::first_segment_of(path.children()[i]));
}

proof fn first_segment_found(path: Tree)
    requires
        path is Node,
        no_node(path.children(), SyntaxKind::PATH),
    ensures
        no_node(path.children(), SyntaxKind::PATH_SEGMENT) ==> Path::first_segment_of(path) is None,
        forall|j: int| #[trigger]
            placing_laws::first_node(path.children(), SyntaxKind::PATH_SEGMENT, j)
                ==> Path::first_segment_of(path) == Some(path.children()[j]),
{
    first_of_kind::<Path>(path.children(), SyntaxKind::PATH);
    first_of_kind::<PathSegment>(path.children(), SyntaxKind::PATH_SEGMENT);
}

/// A path without a segment belongs with other crates.
pub proof fn no_segment_is_extern(path: Tree)
    requires
        path is Node,
        no_node(path.children(), SyntaxKind::PATH),
        no_node(path.children(), SyntaxKind::PATH_SEGMENT),
    ensures
        ImportGroup::of(path) == ImportGroup::ExternCrate,
{
    first_segment_found(path);
}

/// The group of a path that begins with the token `name`: a keyword tells it, and so do the names
/// of the standard library. All other names are those of crates.
pub open spec fn group_of_name(name: Tree) -> ImportGroup {
    if name.kind() == SyntaxKind::CRATE_KW {
        ImportGroup::ThisCrate
    } else if name.kind() == SyntaxKind::SELF_KW {
        ImportGroup::ThisModule
    } else if name.kind() == SyntaxKind::SUPER_KW {
        ImportGroup::SuperModule
    } else if name.text() == seq!['s', 't', 'd'] || name.text() == seq!['c', 'o', 'r', 'e'] {
        ImportGroup::Std
    } else {
        ImportGroup::ExternCrate
    }
}

/// A path whose first segment has a name belongs to the group that the token of the name tells.
pub proof fn name_decides_on_group(path: Tree, j: int, k: int, name: Tree)
    requires
        path is Node,
        no_node(path.children(), SyntaxKind::PATH),
        placing_laws::first_node(path.children(), SyntaxKind::PATH_SEGMENT, j),
        placing_laws::first_node(path.children()[j].children(), SyntaxKind::NAME_REF, k),
        path.children()[j].children()[k].children() == seq![name],
        name is Token,
    ensures
        ImportGroup::of(path) == group_of_name(name),
        !ImportGroup::begins_with_type(path),
{
    let segment = path.children()[j];
    let name_ref = segment.children()[k];
    first_segment_found(path);
    first_of_kind::<NameRef>(segment.children(), SyntaxKind::NAME_REF);
    tree::leaves_of_first(name_ref.children());
    assert(name.leaves()[0] == name);
    assert(name_ref.leaves()[0] == name);
    let none = Seq::<Tree>::empty();
    edit_laws::text_of_join(none, seq![name]);
    assert(seq![name].drop_last() =~= none);
    assert(tree::text_of(none) =~= Seq::<char>::empty());
    assert(tree::text_of(seq![name]) =~= name.text());
    assert(name_ref.text() == name.text());
    reveal_strlit("std");
    reveal_strlit("core");
    assert("std"@ =~= seq!['s', 't', 'd']);
    assert("core"@ =~= seq!['c', 'o', 'r', 'e']);
    assert(ImportGroup::name_of(segment) == name.text());
}

/// However the name of the first segment is made up: its first token tells the group where it is a
/// keyword, and its text where not.
pub proof fn name_text_decides_on_group(path: Tree, j: int, k: int)
    requires
        path is Node,
        no_node(path.children(), SyntaxKind::PATH),
        placing_laws::first_node(path.children(), SyntaxKind::PATH_SEGMENT, j),
        placing_laws::first_node(path.children()[j].children(), SyntaxKind::NAME_REF, k),
    ensures
        ({
            let name = path.children()[j].children()[k];
            let first = name.leaves()[0];
            let kind = if first is Token {
                first.kind()
            } else {
                SyntaxKind::IDENT
            };
            &&& ImportGroup::of(path) == group_of_name(Tree::Token(kind, name.text()))
            &&& !ImportGroup::begins_with_type(path)
        }),
{
    let segment = path.children()[j];
    first_segment_found(path);
    first_of_kind::<NameRef>(segment.children(), SyntaxKind::NAME_REF);
    reveal_strlit("std");
    reveal_strlit("core");
    assert("std"@ =~= seq!['s', 't', 'd']);
    assert("core"@ =~= seq!['c', 'o', 'r', 'e']);
}

/// A path whose first segment has no name belongs to the group that the first child of the segment
/// tells, and with this module where that tells nothing.
pub proof fn keyword_decides_on_group(path: Tree, j: int)
    requires
        path is Node,
        no_node(path.children(), SyntaxKind::PATH),
        placing_laws::first_node(path.children(), SyntaxKind::PATH_SEGMENT, j),
        no_node(path.children()[j].children(), SyntaxKind::NAME_REF),
    ensures
        ({
            let inside = path.children()[j].children();
            let kind = inside[0].kind();
            &&& inside.len() == 0 ==> ImportGroup::of(path) == ImportGroup::ThisModule
            &&& inside.len() > 0 && kind == SyntaxKind::CRATE_KW ==> ImportGroup::of(path)
                == ImportGroup::ThisCrate
            &&& inside.len() > 0 && kind == SyntaxKind::SUPER_KW ==> ImportGroup::of(path)
                == ImportGroup::SuperModule
            &&& inside.len() > 0 && kind != SyntaxKind::CRATE_KW && kind != SyntaxKind::SUPER_KW
                && kind != SyntaxKind::L_ANGLE ==> ImportGroup::of(path)
                == ImportGroup::ThisModule
            &&& ImportGroup::begins_with_type(path) <==> inside.len() > 0 && kind
                == SyntaxKind::L_ANGLE
        }),
{
    let segment = path.children()[j];
    first_segment_found(path);
    first_of_kind::<NameRef>(segment.children(), SyntaxKind::NAME_REF);
}

/// The item for a path reads `use path;`.
pub proof fn item_reads_as_import(path: Tree)
    ensures
        imports::item_of(path).path.len() == 0,
        imports::item_of(path).kind() == SyntaxKind::USE,
        imports::item_of(path).here().text() == seq!['u', 's', 'e', ' '] + path.text() + seq![';'],
{
    let use_tree = make::use_tree_of(path, None, None, false);
    let item = make::use_of(use_tree);
    let none = Seq::<Tree>::empty();
    assert(seq![path].drop_last() =~= none);
    assert(tree::text_of(none) =~= Seq::<char>::empty());
    assert(tree::text_of(seq![path]) =~= path.text());
    assert(use_tree.text() == path.text());
    let word = make::fixed(SyntaxKind::USE_KW);
    let space = make::blank(" "@);
    let end = make::fixed(SyntaxKind::SEMICOLON);
    edit_laws::text_of_three(word, space, use_tree);
    assert(item.children().drop_last() =~= seq![word, space, use_tree]);
    assert(item.children().last() == end);
    reveal_strlit("use");
    reveal_strlit(" ");
    reveal_strlit(";");
    assert("use"@ =~= seq!['u', 's', 'e']);
    assert(" "@ =~= seq![' ']);
    assert(";"@ =~= seq![';']);
    assert(item.text() == tree::text_of(item.children()));
    assert(tree::text_of(item.children()) == tree::text_of(item.children().drop_last())
        + end.text());
    assert(item.text() =~= seq!['u', 's', 'e', ' '] + path.text() + seq![';']);
}

/// `scope` is what a node at `place` holds its imports in: a file and the items of a module do
/// themselves, a module does in the first list of items that it has.
pub open spec fn holds_imports(place: Place, scope: Place) -> bool {
    ||| place.kind() == SyntaxKind::SOURCE_FILE && scope == place
    ||| place.kind() == SyntaxKind::ITEM_LIST && scope == place
    ||| place.kind() == SyntaxKind::MODULE && exists|i: int|
        #[trigger] placing_laws::first_node(place.children(), SyntaxKind::ITEM_LIST, i) && scope
            == place.child(i)
}

/// A node is taken for a scope by what it holds its imports in, and for none where it holds none.
pub proof fn scope_by_kind(place: Place)
    ensures
        forall|scope: Place| #[trigger]
            holds_imports(place, scope) ==> imports::scope_at(place) == Some(scope),
        imports::scope_at(place) matches Some(scope) ==> holds_imports(place, scope),
{
    let children = place.children();
    first_of_kind::<ItemList>(children, SyntaxKind::ITEM_LIST);
    if place.kind() == SyntaxKind::MODULE {
        let wanted = ast::nodes_of::<ItemList>();
        let i = tree::first(children, 0, wanted);
        tree::first_bounds(children, 0, wanted);
        if i < children.len() {
            assert forall|j: int| 0 <= j < i implies !placing_laws::is_node_of(
                #[trigger] children[j],
                SyntaxKind::ITEM_LIST,
            ) by {
                assert(!wanted(children[j]));
            }
            assert(wanted(children[i]));
            assert(placing_laws::first_node(children, SyntaxKind::ITEM_LIST, i));
        }
    }
}

/// The scope of a position is that of the innermost node around it, or of the node itself, that
/// holds imports.
pub proof fn innermost_scope_is_found(place: Place, n: int, scope: Place)
    requires
        0 <= n <= place.path.len(),
        holds_imports(imports_laws::up_to(place, n), scope),
        forall|m: int, other: Place|
            n < m <= place.path.len() ==> !#[trigger] holds_imports(
                imports_laws::up_to(place, m),
                other,
            ),
    ensures
        imports::scope_around(place) == Some(scope),
{
    imports_laws::container_is_innermost(place);
    scope_by_kind(imports_laws::up_to(place, n));
    match imports::scope_around(place) {
        None => {
            assert(imports::scope_at(imports_laws::up_to(place, n)) is None);
        },
        Some(found) => {
            let k = choose|k: int|
                {
                    &&& 0 <= k <= place.path.len()
                    &&& imports::scope_at(#[trigger] imports_laws::up_to(place, k)) == Some(found)
                    &&& forall|m: int|
                        k < m <= place.path.len() ==> imports::scope_at(
                            #[trigger] imports_laws::up_to(place, m),
                        ) is None
                };
            scope_by_kind(imports_laws::up_to(place, k));
            if k > n {
                assert(holds_imports(imports_laws::up_to(place, k), found));
            } else if k < n {
                assert(imports::scope_at(imports_laws::up_to(place, n)) is None);
            }
        },
    }
}

/// Where neither a node nor any around it holds imports, there is no scope.
pub proof fn no_scope_is_found(place: Place)
    requires
        forall|m: int, other: Place|
            0 <= m <= place.path.len() ==> !#[trigger] holds_imports(
                imports_laws::up_to(place, m),
                other,
            ),
    ensures
        imports::scope_around(place) is None,
{
    imports_laws::container_is_innermost(place);
    if let Some(found) = imports::scope_around(place) {
        let k = choose|k: int|
            {
                &&& 0 <= k <= place.path.len()
                &&& imports::scope_at(#[trigger] imports_laws::up_to(place, k)) == Some(found)
                &&& forall|m: int|
                    k < m <= place.path.len() ==> imports::scope_at(
                        #[trigger] imports_laws::up_to(place, m),
                    ) is None
            };
        scope_by_kind(imports_laws::up_to(place, k));
        assert(holds_imports(imports_laws::up_to(place, k), found));
    }
}

/// Of nodes that are listed innermost first, the first that holds imports gives the scope.
pub proof fn first_listed_scope_is_found(places: Seq<Place>, n: int, scope: Place)
    requires
        0 <= n < places.len(),
        holds_imports(places[n], scope),
        forall|m: int, other: Place|
            0 <= m < n ==> !#[trigger] holds_imports(places[m], other),
    ensures
        imports::first_scope(places) == Some(scope),
    decreases n,
{
    scope_by_kind(places[0]);
    if n > 0 {
        let rest = places.skip(1);
        assert forall|m: int, other: Place| 0 <= m < n - 1 implies !#[trigger] holds_imports(
            rest[m],
            other,
        ) by {
            assert(!holds_imports(places[m + 1], other));
        }
        assert(rest[n - 1] == places[n]);
        if let Some(found) = imports::scope_at(places[0]) {
            assert(holds_imports(places[0], found));
        }
        first_listed_scope_is_found(rest, n - 1, scope);
    }
}

/// Where none of the nodes that are listed holds imports, there is no scope.
pub proof fn no_listed_scope_is_found(places: Seq<Place>)
    requires
        forall|m: int, other: Place|
            0 <= m < places.len() ==> !#[trigger] holds_imports(places[m], other),
    ensures
        imports::first_scope(places) is None,
    decreases places.len(),
{
    if places.len() > 0 {
        scope_by_kind(places[0]);
        let rest = places.skip(1);
        assert forall|m: int, other: Place| 0 <= m < rest.len() implies !#[trigger] holds_imports(
            rest[m],
            other,
        ) by {
            assert(!holds_imports(places[m + 1], other));
        }
        if let Some(found) = imports::scope_at(places[0]) {
            assert(holds_imports(places[0], found));
        }
        no_listed_scope_is_found(rest);
    }
}

/// `try_merge` was asked about the `use` item at `existing` and the new one at `item`, and could
/// answer `answer`.
pub open spec fn asked<M: Fn(&Use, &Use, MergeBehavior) -> Option<Use>>(
    try_merge: M,
    existing: Place,
    item: Place,
    behavior: MergeBehavior,
    answer: Option<Use>,
) -> bool {
    exists|a: &Use, b: &Use|
        a@ == existing && b@ == item && #[trigger] call_ensures(
            try_merge,
            (a, b, behavior),
            answer,
        )
}

/// A new import is merged with the first `use` item of the scope that it can be merged with: every
/// `use` item before that one was refused. Where none is merged, every one was refused.
pub proof fn uses_are_asked_in_turn<M: Fn(&Use, &Use, MergeBehavior) -> Option<Use>>(
    try_merge: M,
    scope: Place,
    item: Place,
    behavior: MergeBehavior,
    i: int,
    merged: Use,
    j: int,
)
    requires
        0 <= j < scope.children().len(),
        placing_laws::is_node_of(scope.children()[j], SyntaxKind::USE),
    ensures
        imports::merges_at(try_merge, scope, i, item, behavior, merged) ==> {
            &&& 0 <= i < scope.children().len()
            &&& placing_laws::is_node_of(scope.children()[i], SyntaxKind::USE)
            &&& asked(try_merge, scope.child(i), item, behavior, Some(merged))
            &&& j < i ==> asked(try_merge, scope.child(j), item, behavior, None)
        },
        imports::none_merging(try_merge, scope, item, behavior) ==> asked(
            try_merge,
            scope.child(j),
            item,
            behavior,
            None,
        ),
{
    assert(imports::is_use(scope.children()[j]));
}

/// The number of imports among trees does not shrink with more trees.
proof fn more_imports(trees: Seq<Tree>, a: int, b: int)
    requires
        0 <= a <= b <= trees.len(),
    ensures
        edit_laws::those(trees.take(a), imports_laws::import_items()).len() <= edit_laws::those(
            trees.take(b),
            imports_laws::import_items(),
        ).len(),
{
    let wanted = imports_laws::import_items();
    let none = Seq::<Tree>::empty();
    let gap = trees.subrange(a, b);
    assert(trees.take(b) =~= trees.take(a) + gap + none);
    edit_laws::those_of_three(trees.take(a), gap, none, wanted);
}

/// How many imports stand before child number `m` of a scope.
pub open spec fn number_of(scope: Place, m: int) -> int {
    edit_laws::those(scope.children().take(m), placing_laws::imported()).len() as int
}

/// The imports of a scope are numbered in the order in which they stand in it: the one that is
/// child number `m` has as its number how many imports stand before it.
pub proof fn imports_are_numbered(scope: Place, m: int)
    requires
        scope.is_node(),
        0 <= m < scope.children().len(),
        placing_laws::is_import(scope.children()[m]),
    ensures
        ({
            let k = number_of(scope, m);
            &&& 0 <= k < imports::imports(scope).len()
            &&& imports::imports(scope)[k] == m
        }),
        imports::imports(scope).len() == edit_laws::those(
            scope.children(),
            placing_laws::imported(),
        ).len(),
{
    let children = scope.children();
    let wanted = imports_laws::import_items();
    let len = children.len() as int;
    let none = Seq::<Tree>::empty();
    placing_laws::imported_are_items(children.take(m));
    placing_laws::imported_are_items(children);
    placing_laws::import_is_item(children[m]);
    let k = edit_laws::those(children.take(m), wanted).len() as int;
    assert(children.take(m + 1) =~= children.take(m) + seq![children[m]] + none);
    edit_laws::those_of_three(children.take(m), seq![children[m]], none, wanted);
    edit_laws::those_of_one(children[m], wanted);
    edit_laws::those_of_none(none, wanted);
    assert(edit_laws::those(children.take(m + 1), wanted).len() == k + 1);
    more_imports(children, m + 1, len);
    imports_laws::imports_are_counted(scope, len);
    assert(children.take(len) =~= children);
    let at = imports::imports_before(scope, len)[k];
    assert(edit_laws::those(children.take(at), wanted).len() == k);
    assert(edit_laws::those(children.take(at + 1), wanted).len() == k + 1);
    if at < m {
        more_imports(children, at + 1, m);
    } else if m < at {
        more_imports(children, m + 1, at);
    }
}

/// `order` was asked how the import of `path`, which no list follows, compares with that of
/// `other`, which a list follows where `listed`, and could answer `answer`.
pub open spec fn compared<C: Fn(&Path, bool, &Path, bool) -> Ordering>(
    order: C,
    path: Place,
    other: Place,
    listed: bool,
    answer: Ordering,
) -> bool {
    exists|a: &Path, b: &Path|
        a@ == path && b@ == other && #[trigger] call_ensures(
            order,
            (a, false, b, listed),
            answer,
        )
}

/// The new import is compared with each import of the scope, by their paths and by whether a list
/// follows that of the other. It sorts before the other, or as it does, unless its path compares as
/// greater.
pub proof fn imports_are_compared<C: Fn(&Path, bool, &Path, bool) -> Ordering>(
    order: C,
    path: Place,
    scope: Place,
    earlier: Seq<bool>,
    m: int,
    i: int,
    j: int,
)
    requires
        scope.is_node(),
        imports::orderings(order, path, scope, earlier),
        0 <= m < scope.children().len(),
        placing_laws::is_node_of(scope.children()[m], SyntaxKind::USE),
        placing_laws::first_node(scope.children()[m].children(), SyntaxKind::USE_TREE, i),
        placing_laws::first_node(
            scope.children()[m].children()[i].children(),
            SyntaxKind::PATH,
            j,
        ),
    ensures
        ({
            let k = number_of(scope, m);
            let other = scope.child(m).child(i).child(j);
            let listed = !no_node(
                scope.children()[m].children()[i].children(),
                SyntaxKind::USE_TREE_LIST,
            );
            &&& 0 <= k < earlier.len()
            &&& earlier[k] ==> compared(order, path, other, listed, Ordering::Less) || compared(
                order,
                path,
                other,
                listed,
                Ordering::Equal,
            )
            &&& !earlier[k] ==> compared(order, path, other, listed, Ordering::Greater)
        }),
{
    let item = scope.children()[m];
    let use_tree = item.children()[i];
    let known = use_tree.children()[j];
    assert(placing_laws::imports_path(item, known));
    imports_are_numbered(scope, m);
    let k = number_of(scope, m);
    let existing = scope.child(m);
    algo::child_fits(scope, m);
    algo::child_fits(existing, i);
    algo::child_fits(existing.child(i), j);
    first_of_kind::<UseTree>(item.children(), SyntaxKind::USE_TREE);
    first_of_kind::<Path>(use_tree.children(), SyntaxKind::PATH);
    list_by_kind(existing, i);
    assert(imports::path_at(existing) == Some(existing.child(i).child(j)));
    let told = earlier[k];
    assert(imports::ordering(order, path, existing, told));
    let listed = imports::lists(existing);
    let (a, b, r) = choose|a: &Path, b: &Path, r: Ordering|
        #![trigger call_ensures(order, (a, false, b, listed), r)]
        a@ == path && Some(b@) == imports::path_at(existing) && told == (r != Ordering::Greater)
            && call_ensures(order, (a, false, b, listed), r);
    assert(compared(order, path, existing.child(i).child(j), listed, r));
}

/// Whether a list follows the path of an import.
proof fn list_by_kind(item: Place, i: int)
    requires
        item.is_node(),
        item.kind() == SyntaxKind::USE,
        placing_laws::first_node(item.children(), SyntaxKind::USE_TREE, i),
    ensures
        imports::lists(item) <==> !no_node(
            item.children()[i].children(),
            SyntaxKind::USE_TREE_LIST,
        ),
{
    let inside = item.children()[i].children();
    algo::child_fits(item, i);
    first_of_kind::<UseTree>(item.children(), SyntaxKind::USE_TREE);
    first_of_kind::<UseTreeList>(inside, SyntaxKind::USE_TREE_LIST);
    let wanted = ast::nodes_of::<UseTreeList>();
    tree::first_bounds(inside, 0, wanted);
    let at = tree::first(inside, 0, wanted);
    if at < inside.len() {
        assert(wanted(inside[at]));
        assert(placing_laws::is_node_of(inside[at], SyntaxKind::USE_TREE_LIST));
    }
}

} // verus!
