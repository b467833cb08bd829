//! Where a new `use` item goes, and the scope with the item in it.
use std::cmp::Ordering;
use vstd::pervasive::unreached;
use vstd::prelude::*;
use vstd::string::StrSliceExecFns;

use crate::algo;
use crate::ast;
use crate::ast::{
    AstNode, Attr, AttrKind, ItemList, Module, NameRef, Path, PathSegment, PathSegmentKind,
    SourceFile, Use, UseTree, UseTreeList,
};
use crate::edit;
use crate::make;
use crate::stamp::Marks;
use crate::syntax_kind::SyntaxKind;
use crate::syntax_node;
use crate::syntax_node::{NodeOrToken, Place, SyntaxElement, SyntaxNode, SyntaxToken};
use crate::ted;
use crate::tree;
use crate::tree::Tree;

verus! {

/// How a path to an item begins.
#[derive(Clone, Copy, Debug, PartialEq, Eq, Structural)]
pub enum PrefixKind {
    /// With `self`, `super`, `crate` or the name of a crate.
    BySelf,
    /// As a plain path.
    Plain,
    /// With `crate` where that is possible.
    ByCrate,
}

/// Which imports may be merged into one.
#[derive(Clone, Copy, Debug, PartialEq, Eq, Structural)]
pub enum MergeBehavior {
    /// All that have a path in common, into deeply nested imports.
    Full,
    /// Those that differ in their last segment alone.
    Last,
}

/// How a new import is brought in.
#[derive(Clone, Copy, Debug, PartialEq, Eq, Structural)]
pub struct InsertUseConfig {
    /// `None` where imports are not merged.
    pub merge: Option<MergeBehavior>,
    pub prefix_kind: PrefixKind,
    /// Whether imports are kept in groups.
    pub group: bool,
}

/// What imports stand in.
#[derive(Debug)]
pub enum ImportScope {
    File(SourceFile),
    Module(ItemList),
}

impl View for ImportScope {
    type V = Place;

    open spec fn view(&self) -> Place {
        match self {
            ImportScope::File(file) => file@,
            ImportScope::Module(items) => items@,
        }
    }
}

/// The place of the scope that a node itself is.
pub open spec fn scope_at(place: Place) -> Option<Place> {
    if place.kind() == SyntaxKind::MODULE {
        ast::child_of::<ItemList>(place)
    } else if place.kind() == SyntaxKind::SOURCE_FILE || place.kind() == SyntaxKind::ITEM_LIST {
        Some(place)
    } else {
        None
    }
}

/// The place of the innermost scope around `place`.
pub open spec fn scope_around(place: Place) -> Option<Place>
    decreases place.path.len(),
{
    if scope_at(place) is Some {
        scope_at(place)
    } else if place.is_root() {
        None
    } else {
        scope_around(place.parent())
    }
}

/// The places of the nodes in a sequence.
pub open spec fn places(nodes: Seq<SyntaxNode>) -> Seq<Place> {
    Seq::new(nodes.len(), |i: int| nodes[i]@)
}

/// The place of the scope that the first of `places` that is one is.
pub open spec fn first_scope(places: Seq<Place>) -> Option<Place>
    decreases places.len(),
{
    if places.len() == 0 {
        None
    } else if scope_at(places[0]) is Some {
        scope_at(places[0])
    } else {
        first_scope(places.skip(1))
    }
}

impl ImportScope {
    /// A whole file is a scope of one sort, the items of a module one of the other.
    pub open spec fn fits(self) -> bool {
        &&& self@.is_node()
        &&& self is File ==> self@.kind() == SyntaxKind::SOURCE_FILE
        &&& self is Module ==> self@.kind() == SyntaxKind::ITEM_LIST
    }

    /// The stamps of the whole tree that the scope stands in.
    pub open spec fn marks(self) -> Marks {
        match self {
            ImportScope::File(file) => file.marks(),
            ImportScope::Module(items) => items.marks(),
        }
    }

    /// The scope that `syntax` is: a file, a list of items, or a module that has one.
    pub fn from(syntax: SyntaxNode) -> (r: Option<Self>)
        ensures
            ast::place_of(r) == scope_at(syntax@),
            r matches Some(scope) ==> scope.fits(),
    {
        let kind = syntax.kind();
        if kind == SyntaxKind::MODULE {
            match Module::cast(syntax) {
                Some(module) => match module.item_list() {
                    Some(items) => Some(ImportScope::Module(items)),
                    None => None,
                },
                None => None,
            }
        } else if kind == SyntaxKind::SOURCE_FILE {
            match SourceFile::cast(syntax) {
                Some(file) => Some(ImportScope::File(file)),
                None => None,
            }
        } else {
            match ItemList::cast(syntax) {
                Some(items) => Some(ImportScope::Module(items)),
                None => None,
            }
        }
    }

    /// Determines the containing syntax node in which to insert a `use` statement affecting a
    /// position. `ancestors` are the nodes around the position, innermost first, those outside of
    /// the macro calls that it stands in among them.
    pub fn find_insert_use_container_with_macros(ancestors: Vec<SyntaxNode>) -> (r: Option<Self>)
        ensures
            ast::place_of(r) == first_scope(places(ancestors@)),
            r matches Some(scope) ==> scope.fits(),
    {
        let ghost all = places(ancestors@);
        let mut i: usize = 0;
        assert(all.skip(0) =~= all);
        while i < ancestors.len()
            invariant
                i <= ancestors.len(),
                all == places(ancestors@),
                first_scope(all.skip(i as int)) == first_scope(all),
            decreases ancestors.len() - i,
        {
            let ghost rest = all.skip(i as int);
            assert(rest[0] == ancestors@[i as int]@);
            assert(rest.skip(1) =~= all.skip(i + 1));
            let found = ImportScope::from(ancestors[i].clone());
            if found.is_some() {
                return found;
            }
            i += 1;
        }
        None
    }

    /// Determines the containing syntax node in which to insert a `use` statement affecting
    /// `position`.
    pub fn find_insert_use_container(position: &SyntaxNode) -> (r: Option<Self>)
        ensures
            ast::place_of(r) == scope_around(position@),
            r matches Some(scope) ==> scope.fits(),
    {
        let mut node = position.clone();
        loop
            invariant
                scope_around(node@) == scope_around(position@),
            decreases node@.path.len(),
        {
            let found = ImportScope::from(node.clone());
            if found.is_some() {
                return found;
            }
            node = match node.parent() {
                Some(parent) => parent,
                None => return None,
            };
        }
    }

    pub fn as_syntax_node(&self) -> (r: &SyntaxNode)
        ensures
            r@ == self@,
            r.marks() == self.marks(),
            self.fits(),
    {
        match self {
            ImportScope::File(file) => file.syntax(),
            ImportScope::Module(items) => items.syntax(),
        }
    }

    /// The scope in a copy of its tree.
    pub fn clone_for_update(&self) -> (r: Self)
        ensures
            r@ == self@,
            r.marks() == self.marks(),
            r is File <==> self is File,
            r.fits(),
    {
        self.with_syntax(self.as_syntax_node().clone_for_update())
    }

    /// A scope of the same sort at another node.
    fn with_syntax(&self, syntax: SyntaxNode) -> (r: Self)
        requires
            self.fits(),
            syntax@.kind() == self@.kind(),
        ensures
            r@ == syntax@,
            r.marks() == syntax.marks(),
            r is File <==> self is File,
            r.fits(),
    {
        match self {
            ImportScope::File(_) => match SourceFile::cast(syntax) {
                Some(file) => ImportScope::File(file),
                None => unreached(),
            },
            ImportScope::Module(_) => match ItemList::cast(syntax) {
                Some(items) => ImportScope::Module(items),
                None => unreached(),
            },
        }
    }
}

impl Clone for ImportScope {
    fn clone(&self) -> (r: Self)
        ensures
            r@ == self@,
            r.marks() == self.marks(),
            r is File <==> self is File,
            r.fits(),
    {
        match self {
            ImportScope::File(file) => ImportScope::File(file.clone()),
            ImportScope::Module(items) => ImportScope::Module(items.clone()),
        }
    }
}

/// The groups that imports are kept in.
#[derive(Debug, Clone, Copy, PartialEq, Eq, PartialOrd, Ord, Structural)]
pub enum ImportGroup {
    Std,
    ExternCrate,
    ThisCrate,
    ThisModule,
    SuperModule,
}

impl ImportGroup {
    /// The order in which new groups are inserted.
    pub open spec fn rank(self) -> int {
        match self {
            ImportGroup::Std => 0,
            ImportGroup::ExternCrate => 1,
            ImportGroup::ThisCrate => 2,
            ImportGroup::ThisModule => 3,
            ImportGroup::SuperModule => 4,
        }
    }

    /// Whether `self` comes after `other`.
    pub fn follows(self, other: ImportGroup) -> (r: bool)
        ensures
            r == (self.rank() > other.rank()),
    {
        self.number() > other.number()
    }

    fn number(self) -> (r: u8)
        ensures
            r == self.rank(),
    {
        match self {
            ImportGroup::Std => 0,
            ImportGroup::ExternCrate => 1,
            ImportGroup::ThisCrate => 2,
            ImportGroup::ThisModule => 3,
            ImportGroup::SuperModule => 4,
        }
    }

    /// Whether a path begins with a type in angle brackets, which no import does.
    pub open spec fn begins_with_type(path: Tree) -> bool {
        match Path::first_segment_of(path) {
            Some(segment) => PathSegment::kind_of(segment) == Some(PathSegmentKind::Type),
            None => false,
        }
    }

    /// The text of the name of a segment.
    pub open spec fn name_of(segment: Tree) -> Seq<char> {
        segment.children()[tree::first(segment.children(), 0, ast::nodes_of::<NameRef>())].text()
    }

    /// The group of a path: its first segment decides.
    pub open spec fn of(path: Tree) -> ImportGroup {
        match Path::first_segment_of(path) {
            None => ImportGroup::ExternCrate,
            Some(segment) => match PathSegment::kind_of(segment) {
                None => ImportGroup::ThisModule,
                Some(PathSegmentKind::SelfKw) => ImportGroup::ThisModule,
                Some(PathSegmentKind::SuperKw) => ImportGroup::SuperModule,
                Some(PathSegmentKind::CrateKw) => ImportGroup::ThisCrate,
                Some(PathSegmentKind::Name) => if Self::name_of(segment) == "std"@
                    || Self::name_of(segment) == "core"@ {
                    ImportGroup::Std
                } else {
                    ImportGroup::ExternCrate
                },
                Some(PathSegmentKind::Type) => ImportGroup::ExternCrate,
            },
        }
    }

    /// The group of `path`.
    pub fn new(path: &Path) -> (r: ImportGroup)
        requires
            !Self::begins_with_type(path@.here()),
        ensures
            r == Self::of(path@.here()),
    {
        let first_segment = match path.first_segment() {
            Some(it) => it,
            None => return ImportGroup::ExternCrate,
        };
        match first_segment.kind() {
            None => ImportGroup::ThisModule,
            Some(PathSegmentKind::SelfKw) => ImportGroup::ThisModule,
            Some(PathSegmentKind::SuperKw) => ImportGroup::SuperModule,
            Some(PathSegmentKind::CrateKw) => ImportGroup::ThisCrate,
            Some(PathSegmentKind::Name) => {
                let ghost segment = first_segment@.here();
                let ghost i = tree::first(segment.children(), 0, ast::nodes_of::<NameRef>());
                proof {
                    tree::first_bounds(segment.children(), 0, ast::nodes_of::<NameRef>());
                    algo::child_fits(first_segment@, i);
                }
                match first_segment.name_ref() {
                    Some(name) => {
                        let text = name.syntax().to_string();
                        if text == "std".to_owned() || text == "core".to_owned() {
                            ImportGroup::Std
                        } else {
                            ImportGroup::ExternCrate
                        }
                    },
                    None => unreached(),
                }
            },
            Some(PathSegmentKind::Type) => unreached(),
        }
    }
}

/// Whether `node` is an attribute of what it stands in.
fn is_inner_attribute(node: SyntaxNode) -> (r: bool)
    ensures
        r == (node@.kind() == SyntaxKind::ATTR && Attr::is_inner(node@)),
{
    match Attr::cast(node) {
        Some(attr) => attr.kind() == AttrKind::Inner,
        None => false,
    }
}

/// A comment that documents what it stands in: it begins with `//!` or `/*!`.
pub open spec fn inner_comment(tree: Tree) -> bool {
    let text = tree.text();
    &&& tree.kind() == SyntaxKind::COMMENT
    &&& text.len() >= 3
    &&& text[0] == '/'
    &&& text[1] == '/' || text[1] == '*'
    &&& text[2] == '!'
}

fn is_inner_comment(token: SyntaxToken) -> (r: bool)
    ensures
        r == inner_comment(token@.here()),
{
    if token.kind() != SyntaxKind::COMMENT {
        return false;
    }
    let text = token.text();
    if text.unicode_len() < 3 {
        return false;
    }
    text.get_char(0) == '/' && (text.get_char(1) == '/' || text.get_char(1) == '*')
        && text.get_char(2) == '!'
}

/// An attribute or a comment of what it stands in.
pub open spec fn inner(place: Place) -> bool {
    if place.here() is Node {
        place.kind() == SyntaxKind::ATTR && Attr::is_inner(place)
    } else {
        inner_comment(place.here())
    }
}

/// The number of the last child of `scope` before `to` that is an attribute or a comment of the
/// scope; -1 where none is.
pub open spec fn last_inner(scope: Place, to: int) -> int
    decreases to,
{
    if to <= 0 {
        -1
    } else if inner(scope.child(to - 1)) {
        to - 1
    } else {
        last_inner(scope, to - 1)
    }
}

/// The place of the use tree of a `use` item.
pub open spec fn use_tree_at(item: Place) -> Option<Place> {
    if item.here() is Node && item.kind() == SyntaxKind::USE {
        ast::child_of::<UseTree>(item)
    } else {
        None
    }
}

/// The place of the path of an import: a `use` item whose use tree has one.
pub open spec fn path_at(item: Place) -> Option<Place> {
    match use_tree_at(item) {
        Some(use_tree) => ast::child_of::<Path>(use_tree),
        None => None,
    }
}

/// Whether the use tree of an import has a list.
pub open spec fn lists(item: Place) -> bool {
    match use_tree_at(item) {
        Some(use_tree) => ast::child_of::<UseTreeList>(use_tree) is Some,
        None => false,
    }
}

/// The numbers of the imports among the first `to` children of `scope`.
pub open spec fn imports_before(scope: Place, to: int) -> Seq<int>
    decreases to,
{
    if to <= 0 {
        Seq::empty()
    } else if path_at(scope.child(to - 1)) is Some {
        imports_before(scope, to - 1).push(to - 1)
    } else {
        imports_before(scope, to - 1)
    }
}

/// The numbers of the imports among the children of `scope`.
pub open spec fn imports(scope: Place) -> Seq<int> {
    imports_before(scope, scope.children().len() as int)
}

/// The group of the child of `scope` with number `i`.
pub open spec fn group_at(scope: Place, i: int) -> ImportGroup {
    ImportGroup::of(path_at(scope.child(i))->0.here())
}

/// The groups of the imports of `scope`.
pub open spec fn groups(scope: Place) -> Seq<ImportGroup> {
    Seq::new(imports(scope).len(), |k: int| group_at(scope, imports(scope)[k]))
}

/// The first number from `from` up to but without `to` that `wanted` holds of; `to` where it holds
/// of none.
pub open spec fn first_from(from: int, to: int, wanted: spec_fn(int) -> bool) -> int
    decreases to - from,
{
    if from >= to || wanted(from) {
        from
    } else {
        first_from(from + 1, to, wanted)
    }
}

pub(crate) proof fn first_from_is(from: int, to: int, wanted: spec_fn(int) -> bool, i: int)
    requires
        from <= i <= to,
        forall|j: int| from <= j < i ==> !#[trigger] wanted(j),
        i < to ==> wanted(i),
    ensures
        first_from(from, to, wanted) == i,
    decreases i - from,
{
    if from < i {
        assert(!wanted(from));
        first_from_is(from + 1, to, wanted, i);
    }
}

/// `first_from` finds what its description says.
pub(crate) proof fn first_from_bounds(from: int, to: int, wanted: spec_fn(int) -> bool)
    requires
        from <= to,
    ensures
        from <= first_from(from, to, wanted) <= to,
        forall|j: int| from <= j < first_from(from, to, wanted) ==> !#[trigger] wanted(j),
        first_from(from, to, wanted) < to ==> wanted(first_from(from, to, wanted)),
    decreases to - from,
{
    if from < to && !wanted(from) {
        first_from_bounds(from + 1, to, wanted);
    }
}

/// Numbers of imports that belong to `group`.
pub open spec fn in_group(groups: Seq<ImportGroup>, group: ImportGroup) -> spec_fn(int) -> bool {
    |k: int| groups[k] == group
}

/// Numbers of imports that do not belong to `group`.
pub open spec fn off_group(groups: Seq<ImportGroup>, group: ImportGroup) -> spec_fn(int) -> bool {
    |k: int| groups[k] != group
}

/// Numbers of imports whose group comes after `group`.
pub open spec fn past_group(groups: Seq<ImportGroup>, group: ImportGroup) -> spec_fn(int) -> bool {
    |k: int| groups[k].rank() > group.rank()
}

/// Numbers of imports that do not sort before the new one.
pub open spec fn not_before(earlier: Seq<bool>) -> spec_fn(int) -> bool {
    |k: int| earlier[k]
}

/// A line break that is a tree of its own.
pub open spec fn newline() -> Place {
    Place::root(make::blank("\n"@))
}

/// The scope with `item` at its start, and an empty line after it.
pub open spec fn at_start(scope: Place, item: Place) -> Place {
    ted::with_inserted(
        ted::with_inserted(scope, 0, Place::root(make::blank("\n\n"@))),
        0,
        item,
    )
}

/// The scope with `item` after its child number `i`, and a line break between them more than they
/// need.
pub open spec fn after_with_line(scope: Place, i: int, item: Place) -> Place {
    ted::with_inserted(ted::with_inserted(scope, i + 1, item), i + 1, newline())
}

/// The scope with `item` before its child number `i`, and a line break between them more than they
/// need.
pub open spec fn before_with_line(scope: Place, i: int, item: Place) -> Place {
    ted::with_inserted(
        ted::with_inserted(scope, i, item),
        ted::inserted_at(scope, i, item) + 1,
        newline(),
    )
}

/// A scope without imports, with `item` in it: after its inner attributes and comments; where it
/// has none, at the start of a file and after the opening bracket of a module.
pub open spec fn first_import(scope: Place, item: Place) -> Place {
    let last = last_inner(scope, scope.children().len() as int);
    let l_curly = tree::first(scope.children(), 0, ast::tokens_of(SyntaxKind::L_CURLY));
    if last >= 0 {
        after_with_line(scope, last, item)
    } else if scope.kind() == SyntaxKind::ITEM_LIST && l_curly < scope.children().len() {
        ted::with_inserted(
            ted::with_inserted(scope, l_curly + 1, newline()),
            l_curly + 1,
            item,
        )
    } else {
        at_start(scope, item)
    }
}

/// A scope that has no import of the group `group`, with `item` as a new group: before the first
/// import of a later group, after all imports where there is no later group.
pub open spec fn new_group(scope: Place, group: ImportGroup, item: Place) -> Place {
    let all = imports(scope);
    let next = first_from(0, all.len() as int, past_group(groups(scope), group));
    if next < all.len() {
        before_with_line(scope, all[next], item)
    } else if all.len() > 0 {
        after_with_line(scope, all.last(), item)
    } else {
        first_import(scope, item)
    }
}

/// The scope with the import `item`, whose path belongs to `group`. `earlier` tells of each import
/// whether the new one sorts before it or as it does.
pub open spec fn with_use(
    scope: Place,
    group: ImportGroup,
    group_imports: bool,
    item: Place,
    earlier: Seq<bool>,
) -> Place {
    let all = imports(scope);
    let count = all.len() as int;
    let start = first_from(0, count, in_group(groups(scope), group));
    let end = first_from(start, count, off_group(groups(scope), group));
    let slot = first_from(start, end, not_before(earlier));
    if !group_imports {
        if count > 0 {
            ted::with_inserted(scope, all.last() + 1, item)
        } else {
            at_start(scope, item)
        }
    } else if start >= count {
        new_group(scope, group, item)
    } else if slot < end {
        ted::with_inserted(scope, all[slot], item)
    } else {
        ted::with_inserted(scope, all[end - 1] + 1, item)
    }
}

/// The marks of the children of the scope with `item` at its start. `marks` are those of its
/// children, here and below, and `mark` are those of the item.
pub open spec fn at_start_marks(
    scope: Place,
    item: Place,
    marks: Seq<Marks>,
    mark: Marks,
) -> Seq<Marks> {
    let line = Place::root(make::blank("\n\n"@));
    ted::with_inserted_marks(
        ted::with_inserted(scope, 0, line),
        0,
        item,
        ted::with_inserted_marks(scope, 0, line, marks, Marks::Token),
        mark,
    )
}

/// The marks of the children of the scope with `item` after its child number `i`, and a line break.
pub open spec fn after_with_line_marks(
    scope: Place,
    i: int,
    item: Place,
    marks: Seq<Marks>,
    mark: Marks,
) -> Seq<Marks> {
    ted::with_inserted_marks(
        ted::with_inserted(scope, i + 1, item),
        i + 1,
        newline(),
        ted::with_inserted_marks(scope, i + 1, item, marks, mark),
        Marks::Token,
    )
}

/// The marks of the children of the scope with `item` before its child number `i`, and a line
/// break.
pub open spec fn before_with_line_marks(
    scope: Place,
    i: int,
    item: Place,
    marks: Seq<Marks>,
    mark: Marks,
) -> Seq<Marks> {
    ted::with_inserted_marks(
        ted::with_inserted(scope, i, item),
        ted::inserted_at(scope, i, item) + 1,
        newline(),
        ted::with_inserted_marks(scope, i, item, marks, mark),
        Marks::Token,
    )
}

/// The marks of the children of a scope without imports, with `item` in it.
pub open spec fn first_import_marks(
    scope: Place,
    item: Place,
    marks: Seq<Marks>,
    mark: Marks,
) -> Seq<Marks> {
    let last = last_inner(scope, scope.children().len() as int);
    let l_curly = tree::first(scope.children(), 0, ast::tokens_of(SyntaxKind::L_CURLY));
    if last >= 0 {
        after_with_line_marks(scope, last, item, marks, mark)
    } else if scope.kind() == SyntaxKind::ITEM_LIST && l_curly < scope.children().len() {
        ted::with_inserted_marks(
            ted::with_inserted(scope, l_curly + 1, newline()),
            l_curly + 1,
            item,
            ted::with_inserted_marks(scope, l_curly + 1, newline(), marks, Marks::Token),
            mark,
        )
    } else {
        at_start_marks(scope, item, marks, mark)
    }
}

/// The marks of the children of the scope with `item` as a new group.
pub open spec fn new_group_marks(
    scope: Place,
    group: ImportGroup,
    item: Place,
    marks: Seq<Marks>,
    mark: Marks,
) -> Seq<Marks> {
    let all = imports(scope);
    let next = first_from(0, all.len() as int, past_group(groups(scope), group));
    if next < all.len() {
        before_with_line_marks(scope, all[next], item, marks, mark)
    } else if all.len() > 0 {
        after_with_line_marks(scope, all.last(), item, marks, mark)
    } else {
        first_import_marks(scope, item, marks, mark)
    }
}

/// The marks of the children of the scope with the import `item`, which goes where `with_use` puts
/// it.
pub open spec fn with_use_marks(
    scope: Place,
    group: ImportGroup,
    group_imports: bool,
    item: Place,
    earlier: Seq<bool>,
    marks: Seq<Marks>,
    mark: Marks,
) -> Seq<Marks> {
    let all = imports(scope);
    let count = all.len() as int;
    let start = first_from(0, count, in_group(groups(scope), group));
    let end = first_from(start, count, off_group(groups(scope), group));
    let slot = first_from(start, end, not_before(earlier));
    if !group_imports {
        if count > 0 {
            ted::with_inserted_marks(scope, all.last() + 1, item, marks, mark)
        } else {
            at_start_marks(scope, item, marks, mark)
        }
    } else if start >= count {
        new_group_marks(scope, group, item, marks, mark)
    } else if slot < end {
        ted::with_inserted_marks(scope, all[slot], item, marks, mark)
    } else {
        ted::with_inserted_marks(scope, all[end - 1] + 1, item, marks, mark)
    }
}

/// How many imports are looked at for their group, from the first on: those up to the one that the
/// new import comes before, or up to the end of its group; all where the group is a new one.
pub open spec fn looked_at(scope: Place, group: ImportGroup, earlier: Seq<bool>) -> int {
    let count = imports(scope).len() as int;
    let start = first_from(0, count, in_group(groups(scope), group));
    let end = first_from(start, count, off_group(groups(scope), group));
    let slot = first_from(start, end, not_before(earlier));
    if start >= count {
        count
    } else if slot < end || end < count {
        slot + 1
    } else {
        count
    }
}

/// A path begins with no type, nor does that of any import that is looked at.
pub open spec fn have_groups(
    scope: Place,
    path: Tree,
    group_imports: bool,
    earlier: Seq<bool>,
) -> bool {
    &&& !ImportGroup::begins_with_type(path)
    &&& group_imports ==> forall|k: int|
        0 <= k < looked_at(scope, ImportGroup::of(path), earlier) && k < imports(scope).len()
            ==> !ImportGroup::begins_with_type(
            path_at(scope.child(#[trigger] imports(scope)[k]))->0.here(),
        )
}

/// An import of a scope.
#[derive(Debug)]
pub struct Import {
    /// Its number among the children of the scope.
    pub index: usize,
    pub path: Path,
    /// Whether its use tree has a list.
    pub has_tree_list: bool,
}

/// `list` holds the imports of `scope`, in order.
pub open spec fn are_imports(list: Seq<Import>, scope: Place) -> bool {
    &&& list.len() == imports(scope).len()
    &&& forall|k: int|
        0 <= k < list.len() ==> {
            &&& (#[trigger] list[k]).index == imports(scope)[k]
            &&& path_at(scope.child(imports(scope)[k])) == Some(list[k].path@)
            &&& list[k].has_tree_list == lists(scope.child(imports(scope)[k]))
        }
}

/// The numbers of imports are numbers of children, in order.
proof fn imports_in_scope(scope: Place, to: int)
    requires
        0 <= to <= scope.children().len(),
    ensures
        forall|k: int|
            0 <= k < imports_before(scope, to).len() ==> 0 <= (#[trigger] imports_before(
                scope,
                to,
            )[k]) < to,
    decreases to,
{
    if to > 0 {
        imports_in_scope(scope, to - 1);
        let old = imports_before(scope, to - 1);
        assert forall|k: int| 0 <= k < imports_before(scope, to).len() implies 0 <= (
        #[trigger] imports_before(scope, to)[k]) < to by {
            if k < old.len() {
                assert(0 <= old[k] < to - 1);
            }
        }
    }
}

/// The imports of `scope`, in order.
pub fn imports_of(scope: &SyntaxNode) -> (r: Vec<Import>)
    ensures
        are_imports(r@, scope@),
{
    let count = scope.child_count();
    let mut list: Vec<Import> = Vec::new();
    let mut i: usize = 0;
    while i < count
        invariant
            count == scope@.children().len(),
            scope@.is_node(),
            i <= count,
            list.len() == imports_before(scope@, i as int).len(),
            forall|k: int|
                0 <= k < list.len() ==> {
                    let at = imports_before(scope@, i as int)[k];
                    &&& (#[trigger] list@[k]).index == at
                    &&& path_at(scope@.child(at)) == Some(list@[k].path@)
                    &&& list@[k].has_tree_list == lists(scope@.child(at))
                },
        decreases count - i,
    {
        let ghost old = imports_before(scope@, i as int);
        proof {
            algo::child_fits(scope@, i as int);
        }
        if let Some((path, has_tree_list)) = import_at(scope, i) {
            assert(imports_before(scope@, i + 1) == old.push(i as int));
            list.push(Import { index: i, path, has_tree_list });
        } else {
            assert(imports_before(scope@, i + 1) == old);
        }
        i += 1;
    }
    list
}

/// The path of the import that is child number `i` of `scope`, and whether it has a list.
fn import_at(scope: &SyntaxNode, i: usize) -> (r: Option<(Path, bool)>)
    requires
        i < scope@.children().len(),
    ensures
        r is Some <==> path_at(scope@.child(i as int)) is Some,
        r matches Some(import) ==> {
            &&& path_at(scope@.child(i as int)) == Some(import.0@)
            &&& import.1 == lists(scope@.child(i as int))
        },
{
    let use_ = match scope.child(i) {
        NodeOrToken::Node(node) => match Use::cast(node) {
            Some(it) => it,
            None => return None,
        },
        NodeOrToken::Token(_) => return None,
    };
    let tree = match use_.use_tree() {
        Some(it) => it,
        None => return None,
    };
    let path = match tree.path() {
        Some(it) => it,
        None => return None,
    };
    let has_tree_list = tree.use_tree_list().is_some();
    Some((path, has_tree_list))
}

/// Inserts the import `use_item` of the path `insert_path` into the scope. `earlier` tells of each
/// import of the scope whether the new one sorts before it or as it does; without grouping no one
/// asks for it.
pub fn insert_use_(
    scope: &mut ImportScope,
    insert_path: &Path,
    group_imports: bool,
    use_item: Use,
    earlier: &Vec<bool>,
)
    requires
        have_groups(old(scope)@, insert_path@.here(), group_imports, earlier@),
        group_imports ==> earlier.len() == imports(old(scope)@).len(),
    ensures
        final(scope)@ == with_use(
            old(scope)@,
            ImportGroup::of(insert_path@.here()),
            group_imports,
            use_item@,
            earlier@,
        ),
        syntax_node::marks_edited(
            old(scope)@,
            old(scope).marks(),
            final(scope).marks(),
            with_use_marks(
                old(scope)@,
                ImportGroup::of(insert_path@.here()),
                group_imports,
                use_item@,
                earlier@,
                old(scope).marks().at(old(scope)@.path).children(),
                edit::marks_at(use_item),
            ),
        ),
        *final(scope) is File <==> *old(scope) is File,
        final(scope).fits(),
{
    let changed = insert_into(scope, insert_path, group_imports, use_item, earlier);
    let renewed = scope.with_syntax(changed);
    *scope = renewed;
}

/// The node of `scope` with `new` inserted before its child number `at`.
proof fn insertion_keeps(scope: Place, at: int, new: Place)
    requires
        scope.is_node(),
        0 <= at <= scope.children().len(),
    ensures
        ted::with_inserted(scope, at, new).is_node(),
        ted::with_inserted(scope, at, new).kind() == scope.kind(),
        ted::with_inserted(scope, at, new).children().len() >= scope.children().len() + 1,
        ted::inserted_at(scope, at, new) < ted::with_inserted(scope, at, new).children().len(),
{
    algo::with_children_keeps(
        scope,
        algo::inserted(scope.children(), at, ted::spaced(scope, at, new)),
    );
}

#[verifier::rlimit(40)]
fn insert_into(
    scope: &ImportScope,
    insert_path: &Path,
    group_imports: bool,
    use_item: Use,
    earlier: &Vec<bool>,
) -> (r: SyntaxNode)
    requires
        have_groups(scope@, insert_path@.here(), group_imports, earlier@),
        group_imports ==> earlier.len() == imports(scope@).len(),
    ensures
        r@ == with_use(
            scope@,
            ImportGroup::of(insert_path@.here()),
            group_imports,
            use_item@,
            earlier@,
        ),
        syntax_node::marks_edited(
            scope@,
            scope.marks(),
            r.marks(),
            with_use_marks(
                scope@,
                ImportGroup::of(insert_path@.here()),
                group_imports,
                use_item@,
                earlier@,
                scope.marks().at(scope@.path).children(),
                edit::marks_at(use_item),
            ),
        ),
        r@.kind() == scope@.kind(),
        scope.fits(),
{
    let scope_syntax = scope.as_syntax_node();
    let item: SyntaxElement = NodeOrToken::Node(use_item.syntax().clone());
    let group = ImportGroup::new(insert_path);
    let list = imports_of(scope_syntax);
    let count = list.len();
    let ghost all = imports(scope@);
    proof {
        imports_in_scope(scope@, scope@.children().len() as int);
        assert forall|k: int| 0 <= k < all.len() implies 0 <= #[trigger] all[k]
            < scope@.children().len() by {}
    }
    let total = scope_syntax.child_count();
    assert(forall|k: int| 0 <= k < all.len() ==> #[trigger] all[k] < total);
    if !group_imports {
        if count > 0 {
            let last = list[count - 1].index;
            proof {
                insertion_keeps(scope@, last + 1, item@);
            }
            return ted::insert(scope_syntax, last + 1, &item);
        }
        return insert_at_start(scope_syntax, &item);
    }
    proof {
        let kinds = groups(scope@);
        let start = first_from(0, count as int, in_group(kinds, group));
        let end = first_from(start, count as int, off_group(kinds, group));
        first_from_bounds(0, count as int, in_group(kinds, group));
        first_from_bounds(start, count as int, off_group(kinds, group));
        first_from_bounds(start, end, not_before(earlier@));
        if start < count {
            assert(!off_group(kinds, group)(start));
        }
        assert forall|k: int|
            0 <= k < looked_at(scope@, group, earlier@) && k < count implies !#[trigger] odd_import(
            scope@,
            k,
        ) by {
            assert(0 <= all[k]);
        }
    }
    let start = first_of_group(scope_syntax, &list, group);
    if start == count {
        return insert_new_group(scope, &list, group, &item);
    }
    let (slot, found) = slot_in_group(scope_syntax, &list, group, start, earlier);
    if found {
        // the import that comes directly after the new one
        let at = list[slot].index;
        proof {
            insertion_keeps(scope@, at as int, item@);
        }
        return ted::insert(scope_syntax, at, &item);
    }
    // none does, so the new one ends the group
    let at = list[slot - 1].index;
    proof {
        insertion_keeps(scope@, at + 1, item@);
    }
    ted::insert(scope_syntax, at + 1, &item)
}

/// Whether the path of import number `k` begins with a type.
spec fn odd_import(scope: Place, k: int) -> bool {
    ImportGroup::begins_with_type(path_at(scope.child(imports(scope)[k]))->0.here())
}

/// The number of the first import of the group `group`, or the number of imports.
fn first_of_group(scope: &SyntaxNode, list: &Vec<Import>, group: ImportGroup) -> (r: usize)
    requires
        are_imports(list@, scope@),
        forall|k: int|
            0 <= k <= first_from(0, list.len() as int, in_group(groups(scope@), group)) && k
                < list.len() ==> !#[trigger] odd_import(scope@, k),
    ensures
        r == first_from(0, list.len() as int, in_group(groups(scope@), group)),
        r <= list.len(),
{
    let ghost wanted = in_group(groups(scope@), group);
    let ghost first = first_from(0, list.len() as int, wanted);
    proof {
        first_from_bounds(0, list.len() as int, wanted);
    }
    let mut i: usize = 0;
    while i < list.len()
        invariant
            i <= first <= list.len(),
            are_imports(list@, scope@),
            wanted == in_group(groups(scope@), group),
            first == first_from(0, list.len() as int, wanted),
            forall|j: int| 0 <= j < first ==> !#[trigger] wanted(j),
            first < list.len() ==> wanted(first),
            forall|k: int|
                0 <= k <= first && k < list.len() ==> !#[trigger] odd_import(scope@, k),
        decreases list.len() - i,
    {
        assert(path_at(scope@.child(imports(scope@)[i as int])) == Some(list@[i as int].path@));
        assert(!odd_import(scope@, i as int));
        if ImportGroup::new(&list[i].path) == group {
            assert(wanted(i as int));
            return i;
        }
        assert(!wanted(i as int));
        i += 1;
    }
    i
}

/// The number of the first import whose group comes after `group`.
fn first_past_group(scope: &SyntaxNode, list: &Vec<Import>, group: ImportGroup) -> (r: usize)
    requires
        are_imports(list@, scope@),
        forall|k: int| 0 <= k < list.len() ==> !#[trigger] odd_import(scope@, k),
    ensures
        r == first_from(0, list.len() as int, past_group(groups(scope@), group)),
        r <= list.len(),
{
    let ghost wanted = past_group(groups(scope@), group);
    let mut i: usize = 0;
    while i < list.len()
        invariant
            i <= list.len(),
            are_imports(list@, scope@),
            wanted == past_group(groups(scope@), group),
            forall|j: int| 0 <= j < i ==> !#[trigger] wanted(j),
            forall|k: int| 0 <= k < list.len() ==> !#[trigger] odd_import(scope@, k),
        decreases list.len() - i,
    {
        assert(path_at(scope@.child(imports(scope@)[i as int])) == Some(list@[i as int].path@));
        assert(!odd_import(scope@, i as int));
        if ImportGroup::new(&list[i].path).follows(group) {
            assert(wanted(i as int));
            proof {
                first_from_is(0, list.len() as int, wanted, i as int);
            }
            return i;
        }
        assert(!wanted(i as int));
        i += 1;
    }
    proof {
        first_from_is(0, list.len() as int, wanted, i as int);
    }
    i
}

/// The number of the first import from `start` on that the new one does not come after, and whether
/// it is one of the group; otherwise the group ends there.
fn slot_in_group(
    scope: &SyntaxNode,
    list: &Vec<Import>,
    group: ImportGroup,
    start: usize,
    earlier: &Vec<bool>,
) -> (r: (usize, bool))
    requires
        are_imports(list@, scope@),
        start <= list.len() == earlier.len(),
        ({
            let end = first_from(
                start as int,
                list.len() as int,
                off_group(groups(scope@), group),
            );
            let slot = first_from(start as int, end, not_before(earlier@));
            forall|k: int|
                start <= k <= slot && k < list.len() ==> !#[trigger] odd_import(scope@, k)
        }),
    ensures
        ({
            let end = first_from(
                start as int,
                list.len() as int,
                off_group(groups(scope@), group),
            );
            &&& r.0 == first_from(start as int, end, not_before(earlier@))
            &&& r.1 == (r.0 < end)
            &&& r.0 <= end <= list.len()
        }),
{
    let ghost count = list.len() as int;
    let ghost off = off_group(groups(scope@), group);
    let ghost wanted = not_before(earlier@);
    let ghost end = first_from(start as int, count, off);
    let ghost slot = first_from(start as int, end, wanted);
    proof {
        first_from_bounds(start as int, count, off);
        first_from_bounds(start as int, end, wanted);
    }
    let mut i: usize = start;
    while i < list.len()
        invariant
            start <= i <= slot <= end <= count == list.len() == earlier.len(),
            are_imports(list@, scope@),
            off == off_group(groups(scope@), group),
            wanted == not_before(earlier@),
            forall|j: int| start <= j < end ==> !#[trigger] off(j),
            end < count ==> off(end),
            forall|j: int| start <= j < slot ==> !#[trigger] wanted(j),
            slot < end ==> wanted(slot),
            forall|k: int|
                start <= k <= slot && k < count ==> !#[trigger] odd_import(scope@, k),
            slot == first_from(start as int, end, wanted),
            end == first_from(start as int, count, off),
        decreases list.len() - i,
    {
        assert(path_at(scope@.child(imports(scope@)[i as int])) == Some(list@[i as int].path@));
        assert(!odd_import(scope@, i as int));
        if ImportGroup::new(&list[i].path) != group {
            assert(off(i as int));
            return (i, false);
        }
        assert(!off(i as int));
        if earlier[i] {
            assert(wanted(i as int));
            return (i, true);
        }
        assert(!wanted(i as int));
        i += 1;
    }
    (i, false)
}

/// Two insertions into a scope leave the marks of what stands elsewhere.
proof fn inserted_after(
    scope: &SyntaxNode,
    first: &SyntaxNode,
    second: &SyntaxNode,
    at: int,
    new: SyntaxElement,
)
    requires
        scope@.is_node(),
        first@ == ted::with_inserted(scope@, at, new@),
        syntax_node::marks_edited(
            scope@,
            scope.marks(),
            first.marks(),
            first.marks().at(first@.path).children(),
        ),
        syntax_node::marks_edited(
            first@,
            first.marks(),
            second.marks(),
            second.marks().at(first@.path).children(),
        ),
    ensures
        syntax_node::marks_edited(
            scope@,
            scope.marks(),
            second.marks(),
            second.marks().at(first@.path).children(),
        ),
{
    syntax_node::marks_edited_twice(
        scope@,
        algo::inserted(scope@.children(), at, ted::spaced(scope@, at, new@)),
        scope.marks(),
        first.marks(),
        second.marks(),
        first.marks().at(first@.path).children(),
        second.marks().at(first@.path).children(),
    );
}

/// `scope` with `item` at its start.
fn insert_at_start(scope: &SyntaxNode, item: &SyntaxElement) -> (r: SyntaxNode)
    ensures
        r@ == at_start(scope@, item@),
        syntax_node::marks_edited(
            scope@,
            scope.marks(),
            r.marks(),
            at_start_marks(
                scope@,
                item@,
                scope.marks().at(scope@.path).children(),
                item.marks(),
            ),
        ),
        r@.kind() == scope@.kind(),
        scope@.is_node(),
{
    let line: SyntaxElement = NodeOrToken::Token(make::blank_line());
    let spaced = ted::insert(scope, 0, &line);
    proof {
        insertion_keeps(scope@, 0, line@);
        insertion_keeps(spaced@, 0, item@);
    }
    let r = ted::insert(&spaced, 0, item);
    proof {
        inserted_after(scope, &spaced, &r, 0, line);
    }
    r
}

/// `scope` with `item` after its child number `i`, and a line break between them.
fn insert_after_with_line(scope: &SyntaxNode, i: usize, item: &SyntaxElement) -> (r: SyntaxNode)
    requires
        i < scope@.children().len(),
    ensures
        r@ == after_with_line(scope@, i as int, item@),
        syntax_node::marks_edited(
            scope@,
            scope.marks(),
            r.marks(),
            after_with_line_marks(
                scope@,
                i as int,
                item@,
                scope.marks().at(scope@.path).children(),
                item.marks(),
            ),
        ),
        r@.kind() == scope@.kind(),
{
    let total = scope.child_count();
    assert(i < total);
    let line: SyntaxElement = NodeOrToken::Token(make::single_newline());
    let with_item = ted::insert(scope, i + 1, item);
    proof {
        insertion_keeps(scope@, i + 1, item@);
        insertion_keeps(with_item@, i + 1, line@);
    }
    let r = ted::insert(&with_item, i + 1, &line);
    proof {
        inserted_after(scope, &with_item, &r, i + 1, *item);
    }
    r
}

/// `scope` with `item` before its child number `at`, and a line break between them.
fn insert_before_with_line(scope: &SyntaxNode, at: usize, item: &SyntaxElement) -> (r: SyntaxNode)
    requires
        at < scope@.children().len(),
    ensures
        r@ == before_with_line(scope@, at as int, item@),
        syntax_node::marks_edited(
            scope@,
            scope.marks(),
            r.marks(),
            before_with_line_marks(
                scope@,
                at as int,
                item@,
                scope.marks().at(scope@.path).children(),
                item.marks(),
            ),
        ),
        r@.kind() == scope@.kind(),
{
    let line: SyntaxElement = NodeOrToken::Token(make::single_newline());
    let with_item = ted::insert(scope, at, item);
    let item_at = ted::place_of_inserted(scope, at, item);
    proof {
        insertion_keeps(scope@, at as int, item@);
        insertion_keeps(with_item@, item_at + 1, line@);
    }
    let total = with_item.child_count();
    assert(item_at < total);
    let r = ted::insert(&with_item, item_at + 1, &line);
    proof {
        inserted_after(scope, &with_item, &r, at as int, *item);
    }
    r
}

/// A scope without imports of the group, with `item` as a new group.
fn insert_new_group(
    scope: &ImportScope,
    list: &Vec<Import>,
    group: ImportGroup,
    item: &SyntaxElement,
) -> (r: SyntaxNode)
    requires
        are_imports(list@, scope@),
        forall|k: int| 0 <= k < list.len() ==> !#[trigger] odd_import(scope@, k),
    ensures
        r@ == new_group(scope@, group, item@),
        syntax_node::marks_edited(
            scope@,
            scope.marks(),
            r.marks(),
            new_group_marks(
                scope@,
                group,
                item@,
                scope.marks().at(scope@.path).children(),
                item.marks(),
            ),
        ),
        r@.kind() == scope@.kind(),
{
    let scope_syntax = scope.as_syntax_node();
    let count = list.len();
    let ghost all = imports(scope@);
    proof {
        imports_in_scope(scope@, scope@.children().len() as int);
        assert forall|k: int| 0 <= k < all.len() implies 0 <= #[trigger] all[k]
            < scope@.children().len() by {}
    }
    let next = first_past_group(scope_syntax, list, group);
    if next < count {
        return insert_before_with_line(scope_syntax, list[next].index, item);
    }
    if count > 0 {
        return insert_after_with_line(scope_syntax, list[count - 1].index, item);
    }
    insert_first_import(scope, item)
}

/// A scope without imports, with `item` in it.
fn insert_first_import(scope: &ImportScope, item: &SyntaxElement) -> (r: SyntaxNode)
    ensures
        r@ == first_import(scope@, item@),
        syntax_node::marks_edited(
            scope@,
            scope.marks(),
            r.marks(),
            first_import_marks(
                scope@,
                item@,
                scope.marks().at(scope@.path).children(),
                item.marks(),
            ),
        ),
        r@.kind() == scope@.kind(),
{
    let scope_syntax = scope.as_syntax_node();
    let mut i = scope_syntax.child_count();
    while i > 0
        invariant
            i <= scope@.children().len(),
            scope_syntax@ == scope@,
            scope_syntax.marks() == scope.marks(),
            scope.fits(),
            last_inner(scope@, i as int) == last_inner(scope@, scope@.children().len() as int),
        decreases i,
    {
        i -= 1;
        let inner = match scope_syntax.child(i) {
            NodeOrToken::Node(node) => is_inner_attribute(node),
            NodeOrToken::Token(token) => is_inner_comment(token),
        };
        if inner {
            return insert_after_with_line(scope_syntax, i, item);
        }
    }
    proof {
        tree::first_bounds(scope@.children(), 0, ast::tokens_of(SyntaxKind::L_CURLY));
    }
    match scope {
        ImportScope::File(_) => insert_at_start(scope_syntax, item),
        // not before the opening bracket of the list
        ImportScope::Module(item_list) => match item_list.l_curly_token() {
            Some(b) => {
                let ghost l_curly = tree::first(
                    scope@.children(),
                    0,
                    ast::tokens_of(SyntaxKind::L_CURLY),
                );
                proof {
                    algo::child_fits(scope@, l_curly);
                }
                let at = b.index();
                let total = scope_syntax.child_count();
                assert(at < total);
                let line: SyntaxElement = NodeOrToken::Token(make::single_newline());
                let with_line = ted::insert(scope_syntax, at + 1, &line);
                proof {
                    insertion_keeps(scope@, at + 1, line@);
                    insertion_keeps(with_line@, at + 1, item@);
                }
                let r = ted::insert(&with_line, at + 1, item);
                proof {
                    inserted_after(scope_syntax, &with_line, &r, at + 1, line);
                }
                r
            },
            None => insert_at_start(scope_syntax, item),
        },
    }
}

/// A `use` item that imports `path`, as a tree of its own.
pub open spec fn item_of(path: Tree) -> Place {
    Place::root(make::use_of(make::use_tree_of(path, None, None, false)))
}

/// Whether a child is a `use` item.
pub open spec fn is_use(tree: Tree) -> bool {
    tree is Node && tree.kind() == SyntaxKind::USE
}

/// `try_merge` can answer `answer` to the `use` items at `existing` and `item`.
pub open spec fn merging<M: Fn(&Use, &Use, MergeBehavior) -> Option<Use>>(
    try_merge: M,
    existing: Place,
    item: Place,
    behavior: MergeBehavior,
    answer: Option<Use>,
) -> bool {
    exists|a: &Use, b: &Use|
        a@ == existing && b@ == item && #[trigger] call_ensures(
            try_merge,
            (a, b, behavior),
            answer,
        )
}

/// None of the first `to` children of `scope` that are `use` items can be merged with `item`.
pub open spec fn not_merging<M: Fn(&Use, &Use, MergeBehavior) -> Option<Use>>(
    try_merge: M,
    scope: Place,
    to: int,
    item: Place,
    behavior: MergeBehavior,
) -> bool {
    forall|j: int|
        0 <= j < to && is_use(#[trigger] scope.children()[j]) ==> merging(
            try_merge,
            scope.child(j),
            item,
            behavior,
            None,
        )
}

/// None of the `use` items of `scope` can be merged with `item`.
pub open spec fn none_merging<M: Fn(&Use, &Use, MergeBehavior) -> Option<Use>>(
    try_merge: M,
    scope: Place,
    item: Place,
    behavior: MergeBehavior,
) -> bool {
    not_merging(try_merge, scope, scope.children().len() as int, item, behavior)
}

/// The first `use` item of `scope` that can be merged with `item` is child number `i`, and gives
/// `merged`.
pub open spec fn merges_at<M: Fn(&Use, &Use, MergeBehavior) -> Option<Use>>(
    try_merge: M,
    scope: Place,
    i: int,
    item: Place,
    behavior: MergeBehavior,
    merged: Use,
) -> bool {
    &&& 0 <= i < scope.children().len()
    &&& is_use(scope.children()[i])
    &&& merging(try_merge, scope.child(i), item, behavior, Some(merged))
    &&& not_merging(try_merge, scope, i, item, behavior)
}

/// `order` can tell that the import of `path` sorts before the import at `existing`, or as it does,
/// where `earlier`; that it sorts after it where not.
pub open spec fn ordering<C: Fn(&Path, bool, &Path, bool) -> Ordering>(
    order: C,
    path: Place,
    existing: Place,
    earlier: bool,
) -> bool {
    exists|a: &Path, b: &Path, r: Ordering|
        #![trigger call_ensures(order, (a, false, b, lists(existing)), r)]
        a@ == path && Some(b@) == path_at(existing) && earlier == (r != Ordering::Greater)
            && call_ensures(order, (a, false, b, lists(existing)), r)
}

/// What `order` can tell of all imports of `scope`.
pub open spec fn orderings<C: Fn(&Path, bool, &Path, bool) -> Ordering>(
    order: C,
    path: Place,
    scope: Place,
    earlier: Seq<bool>,
) -> bool {
    &&& earlier.len() == imports(scope).len()
    &&& forall|k: int|
        0 <= k < earlier.len() ==> ordering(
            order,
            path,
            scope.child(imports(scope)[k]),
            #[trigger] earlier[k],
        )
}

/// Insert an import path into the given file/node. A `merge` value of none indicates that no import
/// merging is allowed to occur.
///
/// `try_merge` gives the `use` item that two become, where they can be merged. `order` compares two
/// paths, each with whether a list follows it.
///
/// Where the import is not merged, its path may not begin with a type in angle brackets, nor may
/// that of any import that is looked at on the way to its group.
pub fn insert_use<M, C>(
    scope: &mut ImportScope,
    path: Path,
    cfg: InsertUseConfig,
    try_merge: M,
    order: C,
) where
    M: Fn(&Use, &Use, MergeBehavior) -> Option<Use>,
    C: Fn(&Path, bool, &Path, bool) -> Ordering,

    requires
        forall|a: &Use, b: &Use, behavior: MergeBehavior| #[trigger]
            call_requires(try_merge, (a, b, behavior)),
        forall|a: &Path, x: bool, b: &Path, y: bool| #[trigger]
            call_requires(order, (a, x, b, y)),
        ({
            let before = old(scope)@;
            let item = item_of(path@.here());
            ||| cfg.merge matches Some(behavior) && !none_merging(
                try_merge,
                before,
                item,
                behavior,
            )
            ||| forall|earlier: Seq<bool>|
                (cfg.group ==> orderings(order, path@, before, earlier))
                    ==> #[trigger] have_groups(before, path@.here(), cfg.group, earlier)
        }),
    ensures
        ({
            let before = old(scope)@;
            let item = item_of(path@.here());
            let marks = old(scope).marks().at(before.path).children();
            ||| exists|behavior: MergeBehavior, i: int, merged: Use|
                {
                    &&& cfg.merge == Some(behavior)
                    &&& #[trigger] merges_at(try_merge, before, i, item, behavior, merged)
                    &&& final(scope)@ == before.with_children(
                        before.children().update(i, merged@.here()),
                    )
                    &&& syntax_node::marks_edited(
                        before,
                        old(scope).marks(),
                        final(scope).marks(),
                        marks.update(i, edit::marks_at(merged)),
                    )
                }
            ||| exists|earlier: Seq<bool>, mark: Marks|
                {
                    &&& cfg.merge matches Some(behavior) ==> none_merging(
                        try_merge,
                        before,
                        item,
                        behavior,
                    )
                    &&& cfg.group ==> orderings(order, path@, before, earlier)
                    &&& final(scope)@ == #[trigger] with_use(
                        before,
                        ImportGroup::of(path@.here()),
                        cfg.group,
                        item,
                        earlier,
                    )
                    &&& syntax_node::marks_edited(
                        before,
                        old(scope).marks(),
                        final(scope).marks(),
                        #[trigger] with_use_marks(
                            before,
                            ImportGroup::of(path@.here()),
                            cfg.group,
                            item,
                            earlier,
                            marks,
                            mark,
                        ),
                    )
                }
        }),
        *final(scope) is File <==> *old(scope) is File,
        final(scope).fits(),
{
    let use_item = make::use_(&make::use_tree(&path, None, None, false));
    // merge into existing imports if possible
    if let Some(behavior) = cfg.merge {
        if let Some(renewed) = merge_into(scope, &use_item, behavior, try_merge) {
            *scope = renewed;
            return;
        }
    }
    // either merging is not allowed or no import fits, so look for the place to insert to
    let mut earlier: Vec<bool> = Vec::new();
    if cfg.group {
        let list = imports_of(scope.as_syntax_node());
        let count = list.len();
        let mut k: usize = 0;
        while k < count
            invariant
                k <= count == list.len(),
                are_imports(list@, scope@),
                forall|a: &Path, x: bool, b: &Path, y: bool| #[trigger]
                    call_requires(order, (a, x, b, y)),
                earlier.len() == k,
                forall|j: int|
                    0 <= j < k ==> ordering(
                        order,
                        path@,
                        scope@.child(imports(scope@)[j]),
                        #[trigger] earlier@[j],
                    ),
            decreases count - k,
        {
            let answer = order(&path, false, &list[k].path, list[k].has_tree_list);
            earlier.push(
                match answer {
                    Ordering::Greater => false,
                    Ordering::Less | Ordering::Equal => true,
                },
            );
            k += 1;
        }
        assert(orderings(order, path@, scope@, earlier@));
    }
    insert_use_(scope, &path, cfg.group, use_item, &earlier);
}

/// The scope with the first `use` item that can be merged with `item` merged with it.
fn merge_into<M>(scope: &ImportScope, item: &Use, behavior: MergeBehavior, try_merge: M) -> (r:
    Option<ImportScope>) where M: Fn(&Use, &Use, MergeBehavior) -> Option<Use>
    requires
        forall|a: &Use, b: &Use, behavior: MergeBehavior| #[trigger]
            call_requires(try_merge, (a, b, behavior)),
    ensures
        r matches Some(renewed) ==> {
            &&& renewed.fits()
            &&& renewed is File <==> *scope is File
            &&& exists|i: int, merged: Use|
                {
                    &&& #[trigger] merges_at(try_merge, scope@, i, item@, behavior, merged)
                    &&& renewed@ == scope@.with_children(
                        scope@.children().update(i, merged@.here()),
                    )
                    &&& syntax_node::marks_edited(
                        scope@,
                        scope.marks(),
                        renewed.marks(),
                        scope.marks().at(scope@.path).children().update(
                            i,
                            edit::marks_at(merged),
                        ),
                    )
                }
        },
        r is None ==> none_merging(try_merge, scope@, item@, behavior),
{
    let scope_syntax = scope.as_syntax_node();
    let count = scope_syntax.child_count();
    let mut i: usize = 0;
    while i < count
        invariant
            i <= count == scope@.children().len(),
            scope_syntax@ == scope@,
            scope_syntax.marks() == scope.marks(),
            scope.fits(),
            forall|a: &Use, b: &Use, behavior: MergeBehavior| #[trigger]
                call_requires(try_merge, (a, b, behavior)),
            not_merging(try_merge, scope@, i as int, item@, behavior),
        decreases count - i,
    {
        proof {
            algo::child_fits(scope@, i as int);
        }
        if let NodeOrToken::Node(node) = scope_syntax.child(i) {
            if let Some(existing_use) = Use::cast(node) {
                if let Some(merged) = try_merge(&existing_use, item, behavior) {
                    let new: SyntaxElement = NodeOrToken::Node(merged.syntax().clone());
                    let changed = ted::replace(scope_syntax, i, &new);
                    proof {
                        algo::with_children_keeps(
                            scope@,
                            scope@.children().update(i as int, merged@.here()),
                        );
                        assert(merges_at(try_merge, scope@, i as int, item@, behavior, merged));
                    }
                    return Some(scope.with_syntax(changed));
                }
            }
        }
        i += 1;
    }
    None
}

} // verus!
