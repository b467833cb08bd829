use std::cmp::Ordering;

use syntax_edit::ast::{AstNode, Path, Use};
use syntax_edit::imports::{
    imports_of, insert_use, insert_use_, ImportGroup, ImportScope, InsertUseConfig, MergeBehavior,
    PrefixKind,
};
use syntax_edit::make;
use syntax_edit::syntax_kind::SyntaxKind;
use syntax_edit::syntax_node::{NodeOrToken, SyntaxNode};
use syntax_edit::tree::SyntaxTree;

fn token(kind: SyntaxKind, text: &str) -> SyntaxTree {
    SyntaxTree::Token(kind, text.to_string())
}

fn fixed(kind: SyntaxKind) -> SyntaxTree {
    SyntaxTree::Token(kind, kind.text().unwrap().to_string())
}

fn ws(text: &str) -> SyntaxTree {
    token(SyntaxKind::WHITESPACE, text)
}

fn node(kind: SyntaxKind, children: Vec<SyntaxTree>) -> SyntaxTree {
    SyntaxTree::node(kind, children)
}

fn segment_tree(text: &str) -> SyntaxTree {
    let kind = match text {
        "self" => SyntaxKind::SELF_KW,
        "super" => SyntaxKind::SUPER_KW,
        "crate" => SyntaxKind::CRATE_KW,
        _ => SyntaxKind::IDENT,
    };
    node(
        SyntaxKind::PATH_SEGMENT,
        vec![node(SyntaxKind::NAME_REF, vec![token(kind, text)])],
    )
}

fn path_tree(text: &str) -> SyntaxTree {
    let mut tree: Option<SyntaxTree> = None;
    for part in text.split("::") {
        let segment = segment_tree(part);
        tree = Some(match tree {
            None => node(SyntaxKind::PATH, vec![segment]),
            Some(qualifier) => node(
                SyntaxKind::PATH,
                vec![qualifier, fixed(SyntaxKind::COLON2), segment],
            ),
        });
    }
    tree.unwrap()
}

fn path(text: &str) -> Path {
    Path::cast(SyntaxNode::new_root(path_tree(text))).unwrap()
}

fn use_item(text: &str) -> SyntaxTree {
    let item = make::use_(&make::use_tree(&path(text), None, None, false));
    item.syntax().green().clone()
}

/// Items of a file: imports, whitespace and functions.
fn items(parts: &[&str]) -> Vec<SyntaxTree> {
    parts
        .iter()
        .map(|part| match part.strip_prefix("use ") {
            Some(path) => use_item(path),
            None if part.trim().is_empty() => ws(part),
            None => node(SyntaxKind::FN, vec![token(SyntaxKind::IDENT, part)]),
        })
        .collect()
}

fn file_of(children: Vec<SyntaxTree>) -> ImportScope {
    ImportScope::from(SyntaxNode::new_root(node(SyntaxKind::SOURCE_FILE, children))).unwrap()
}

fn config(merge: Option<MergeBehavior>, group: bool) -> InsertUseConfig {
    InsertUseConfig { merge, prefix_kind: PrefixKind::Plain, group }
}

fn by_text(a: &Path, _: bool, b: &Path, _: bool) -> Ordering {
    a.syntax().to_string().cmp(&b.syntax().to_string())
}

fn never(_: &Use, _: &Use, _: MergeBehavior) -> Option<Use> {
    None
}

fn text_of(scope: &ImportScope) -> String {
    scope.as_syntax_node().to_string()
}

fn check(new: &str, parts: &[&str], expected: &str) {
    let mut scope = file_of(items(parts));
    insert_use(&mut scope, path(new), config(None, true), never, by_text);
    assert_eq!(text_of(&scope), expected);
}

fn check_ungrouped(new: &str, parts: &[&str], expected: &str) {
    let mut scope = file_of(items(parts));
    insert_use(&mut scope, path(new), config(None, false), never, by_text);
    assert_eq!(text_of(&scope), expected);
}

#[test]
fn insert_not_group() {
    check_ungrouped(
        "external_crate2::bar::A",
        &["use std::bar::B", "\n", "use crate::bar::A", "\n", "use self::bar::A"],
        "use std::bar::B;\nuse crate::bar::A;\nuse self::bar::A;\nuse external_crate2::bar::A;",
    );
}

#[test]
fn insert_not_group_empty() {
    check_ungrouped("external_crate2::bar::A", &[], "use external_crate2::bar::A;\n\n");
}

#[test]
fn insert_existing() {
    check("std::fs", &["use std::fs"], "use std::fs;\nuse std::fs;");
}

#[test]
fn insert_start() {
    check(
        "std::bar::AA",
        &["use std::bar::B", "\n", "use std::bar::D", "\n", "use std::bar::F"],
        "use std::bar::AA;\nuse std::bar::B;\nuse std::bar::D;\nuse std::bar::F;",
    );
}

#[test]
fn insert_start_indent() {
    check(
        "std::bar::AA",
        &["    ", "use std::bar::B", "\n    ", "use std::bar::C"],
        "    use std::bar::AA;\nuse std::bar::B;\n    use std::bar::C;",
    );
    check(
        "std::bar::AA",
        &["\n    ", "use std::bar::B", "\n    ", "use std::bar::C"],
        "\n    use std::bar::AA;\n    use std::bar::B;\n    use std::bar::C;",
    );
}

#[test]
fn insert_middle() {
    check(
        "std::bar::EE",
        &["use std::bar::A", "\n", "use std::bar::D", "\n", "use std::bar::F"],
        "use std::bar::A;\nuse std::bar::D;\nuse std::bar::EE;\nuse std::bar::F;",
    );
}

#[test]
fn insert_end() {
    check(
        "std::bar::ZZ",
        &["use std::bar::A", "\n", "use std::bar::D", "\n\n", "fn f"],
        "use std::bar::A;\nuse std::bar::D;\nuse std::bar::ZZ;\n\nfn f",
    );
}

#[test]
fn insert_end_indent() {
    check(
        "std::bar::ZZ",
        &["\n    ", "use std::bar::A", "\n    ", "use std::bar::D"],
        "\n    use std::bar::A;\n    use std::bar::D;\n    use std::bar::ZZ;",
    );
}

#[test]
fn insert_middle_groups() {
    check(
        "foo::bar::GG",
        &["use std::bar::A", "\n\n", "use foo::bar::A", "\n", "use foo::bar::H"],
        "use std::bar::A;\n\nuse foo::bar::A;\nuse foo::bar::GG;\nuse foo::bar::H;",
    );
}

#[test]
fn insert_first_matching_group() {
    check(
        "foo::bar::GG",
        &[
            "use foo::bar::A",
            "\n",
            "use foo::bar::D",
            "\n\n",
            "use std::bar::A",
            "\n\n",
            "use foo::bar::Z",
        ],
        "use foo::bar::A;\nuse foo::bar::D;\nuse foo::bar::GG;\n\nuse std::bar::A;\n\n\
         use foo::bar::Z;",
    );
}

#[test]
fn insert_missing_group_std() {
    check(
        "std::fmt",
        &["use foo::bar::A", "\n", "use foo::bar::D"],
        "use std::fmt;\n\nuse foo::bar::A;\nuse foo::bar::D;",
    );
}

#[test]
fn insert_missing_group_self() {
    check(
        "self::fmt",
        &["use foo::bar::A", "\n", "use foo::bar::D"],
        "use foo::bar::A;\nuse foo::bar::D;\n\nuse self::fmt;",
    );
}

#[test]
fn insert_missing_group_between() {
    check(
        "crate::fmt",
        &["use foo::bar::A", "\n\n", "use super::bar::D"],
        "use foo::bar::A;\n\nuse crate::fmt;\n\nuse super::bar::D;",
    );
}

#[test]
fn insert_no_imports() {
    check("foo::bar", &["fn main() {}"], "use foo::bar;\n\nfn main() {}");
}

#[test]
fn insert_empty_file() {
    check("foo::bar", &[], "use foo::bar;\n\n");
}

fn module(items: Vec<SyntaxTree>) -> SyntaxTree {
    let mut children = vec![fixed(SyntaxKind::L_CURLY)];
    children.extend(items);
    children.push(fixed(SyntaxKind::R_CURLY));
    node(
        SyntaxKind::MODULE,
        vec![
            fixed(SyntaxKind::MOD_KW),
            ws(" "),
            node(SyntaxKind::NAME, vec![token(SyntaxKind::IDENT, "x")]),
            ws(" "),
            node(SyntaxKind::ITEM_LIST, children),
        ],
    )
}

#[test]
fn insert_empty_module() {
    let mut scope = ImportScope::from(SyntaxNode::new_root(module(vec![]))).unwrap();
    insert_use(&mut scope, path("foo::bar"), config(None, true), never, by_text);
    assert_eq!(text_of(&scope), "{\n    use foo::bar;\n}");
    let whole = scope.as_syntax_node().parent().unwrap();
    assert_eq!(whole.to_string(), "mod x {\n    use foo::bar;\n}");
}

#[test]
fn insert_module_without_a_bracket() {
    let list = node(SyntaxKind::ITEM_LIST, vec![fixed(SyntaxKind::R_CURLY)]);
    let mut scope = ImportScope::from(SyntaxNode::new_root(list)).unwrap();
    insert_use(&mut scope, path("foo::bar"), config(None, true), never, by_text);
    assert_eq!(text_of(&scope), "use foo::bar;\n\n}");
}

#[test]
fn insert_nested_module() {
    let file = SyntaxNode::new_root(node(
        SyntaxKind::SOURCE_FILE,
        vec![ws("\n    "), module(vec![])],
    ));
    let inner = match file.child(1) {
        NodeOrToken::Node(inner) => inner,
        NodeOrToken::Token(_) => panic!("not a node"),
    };
    let mut scope = ImportScope::from(inner).unwrap();
    insert_use(&mut scope, path("foo::bar"), config(None, true), never, by_text);
    assert_eq!(text_of(&scope), "{\n        use foo::bar;\n}");
}

fn attr(inner: bool) -> SyntaxTree {
    let mut children = vec![fixed(SyntaxKind::POUND)];
    if inner {
        children.push(fixed(SyntaxKind::BANG));
    }
    children.push(token(SyntaxKind::IDENT, "[allow]"));
    node(SyntaxKind::ATTR, children)
}

#[test]
fn insert_after_inner_attr() {
    let mut scope = file_of(vec![attr(true)]);
    insert_use(&mut scope, path("foo::bar"), config(None, true), never, by_text);
    assert_eq!(text_of(&scope), "#![allow]\n\nuse foo::bar;");
}

#[test]
fn insert_after_inner_comments() {
    let mut scope = file_of(vec![
        token(SyntaxKind::COMMENT, "//! a"),
        ws("\n"),
        token(SyntaxKind::COMMENT, "/*! b */"),
        ws("\n"),
        token(SyntaxKind::COMMENT, "// c"),
        ws("\n"),
        attr(false),
    ]);
    insert_use(&mut scope, path("foo::bar"), config(None, true), never, by_text);
    assert_eq!(text_of(&scope), "//! a\n/*! b */\n\nuse foo::bar;\n// c\n#[allow]");
}

#[test]
fn outer_comments_do_not_count() {
    let mut scope = file_of(vec![token(SyntaxKind::COMMENT, "//"), ws("\n"), attr(false)]);
    insert_use(&mut scope, path("foo::bar"), config(None, true), never, by_text);
    assert_eq!(text_of(&scope), "use foo::bar;\n\n//\n#[allow]");
}

fn merge_first(existing: &Use, new: &Use, behavior: MergeBehavior) -> Option<Use> {
    let tree = new.use_tree().unwrap().path().unwrap();
    let old = existing.use_tree().unwrap().path().unwrap();
    if behavior == MergeBehavior::Last && old.syntax().to_string().starts_with("foo") {
        let list = make::use_tree_list(&make::use_tree(&tree, None, None, false));
        Some(make::use_(&make::use_tree(&old, Some(list), None, false)))
    } else {
        None
    }
}

#[test]
fn insert_merges_with_the_first_that_fits() {
    let parts = ["use std::a", "\n", "use foo::b", "\n", "use foo::c"];
    let mut scope = file_of(items(&parts));
    let merge = config(Some(MergeBehavior::Last), true);
    insert_use(&mut scope, path("foo::d"), merge, merge_first, by_text);
    assert_eq!(text_of(&scope), "use std::a;\nuse foo::b::{foo::d};\nuse foo::c;");
}

#[test]
fn insert_without_a_merge_partner() {
    let parts = ["use std::a", "\n", "use foo::b"];
    let mut scope = file_of(items(&parts));
    let merge = config(Some(MergeBehavior::Full), true);
    insert_use(&mut scope, path("foo::d"), merge, merge_first, by_text);
    assert_eq!(text_of(&scope), "use std::a;\nuse foo::b;\nuse foo::d;");
}

#[test]
fn insert_goes_by_the_order_that_is_told() {
    let item = Use::cast(SyntaxNode::new_root(use_item("std::x"))).unwrap();
    let parts = ["use std::a", "\n", "use std::b"];
    let mut scope = file_of(items(&parts));
    insert_use_(&mut scope, &path("std::x"), true, item.clone(), &vec![false, true]);
    assert_eq!(text_of(&scope), "use std::a;\nuse std::x;\nuse std::b;");
    let mut scope = file_of(items(&parts));
    insert_use_(&mut scope, &path("std::x"), true, item, &vec![false, false]);
    assert_eq!(text_of(&scope), "use std::a;\nuse std::b;\nuse std::x;");
}

#[test]
fn groups_of_paths() {
    assert_eq!(ImportGroup::new(&path("std::a")), ImportGroup::Std);
    assert_eq!(ImportGroup::new(&path("core::a")), ImportGroup::Std);
    assert_eq!(ImportGroup::new(&path("alloc::a")), ImportGroup::ExternCrate);
    assert_eq!(ImportGroup::new(&path("a::std")), ImportGroup::ExternCrate);
    assert_eq!(ImportGroup::new(&path("crate::a")), ImportGroup::ThisCrate);
    assert_eq!(ImportGroup::new(&path("self::a")), ImportGroup::ThisModule);
    assert_eq!(ImportGroup::new(&path("super::a")), ImportGroup::SuperModule);
    let none = node(SyntaxKind::PATH, vec![]);
    let none = Path::cast(SyntaxNode::new_root(none)).unwrap();
    assert_eq!(ImportGroup::new(&none), ImportGroup::ExternCrate);
    let odd = node(SyntaxKind::PATH, vec![node(SyntaxKind::PATH_SEGMENT, vec![])]);
    let odd = Path::cast(SyntaxNode::new_root(odd)).unwrap();
    assert_eq!(ImportGroup::new(&odd), ImportGroup::ThisModule);
    assert!(ImportGroup::SuperModule.follows(ImportGroup::ThisModule));
    assert!(ImportGroup::ExternCrate.follows(ImportGroup::Std));
    assert!(!ImportGroup::Std.follows(ImportGroup::Std));
}

#[test]
fn imports_of_a_scope() {
    let scope = file_of(items(&["fn a", "use a::b", "\n", "use c"]));
    let list = imports_of(scope.as_syntax_node());
    assert_eq!(list.len(), 2);
    assert_eq!(list[0].index, 1);
    assert_eq!(list[1].index, 3);
    assert_eq!(list[0].path.syntax().to_string(), "a::b");
    assert!(!list[0].has_tree_list);
}

#[test]
fn containers_of_positions() {
    let file = SyntaxNode::new_root(node(
        SyntaxKind::SOURCE_FILE,
        vec![module(items(&["fn f"])), node(SyntaxKind::FN, vec![])],
    ));
    let inner = match file.child(0) {
        NodeOrToken::Node(inner) => inner,
        NodeOrToken::Token(_) => panic!("not a node"),
    };
    let name = match inner.child(2) {
        NodeOrToken::Node(name) => name,
        NodeOrToken::Token(_) => panic!("not a node"),
    };
    let function = match file.child(1) {
        NodeOrToken::Node(function) => function,
        NodeOrToken::Token(_) => panic!("not a node"),
    };
    let found = ImportScope::find_insert_use_container(&name).unwrap();
    assert_eq!(text_of(&found), "{fn f}");
    let found = ImportScope::find_insert_use_container(&function).unwrap();
    assert!(found.as_syntax_node().same(&file));
    assert!(matches!(found.clone(), ImportScope::File(_)));
    assert!(found.clone_for_update().as_syntax_node().same(&file));
    let chain = vec![name.clone(), inner, file];
    let found = ImportScope::find_insert_use_container_with_macros(chain).unwrap();
    assert_eq!(text_of(&found), "{fn f}");
    assert!(ImportScope::find_insert_use_container_with_macros(vec![name]).is_none());
    let lone = SyntaxNode::new_root(node(SyntaxKind::FN, vec![]));
    assert!(ImportScope::find_insert_use_container(&lone).is_none());
    let empty = SyntaxNode::new_root(node(SyntaxKind::MODULE, vec![]));
    assert!(ImportScope::find_insert_use_container(&empty).is_none());
}

#[test]
fn a_new_import_is_counted_among_the_imports() {
    let parts = ["use std::a", "\n", "fn f", "\n", "use std::c", "\n", "use crate::d"];
    let mut scope = file_of(items(&parts));
    insert_use(&mut scope, path("std::b"), config(None, true), never, by_text);
    let list = imports_of(scope.as_syntax_node());
    let paths: Vec<String> = list.iter().map(|it| it.path.syntax().to_string()).collect();
    assert_eq!(paths, vec!["std::a", "std::b", "std::c", "crate::d"]);
}

#[test]
fn an_item_imports_its_path() {
    let item = Use::cast(SyntaxNode::new_root(use_item("a::b"))).unwrap();
    assert_eq!(item.syntax().to_string(), "use a::b;");
    assert_eq!(item.use_tree().unwrap().path().unwrap().syntax().to_string(), "a::b");
}

#[test]
fn imports_past_the_slot_are_not_looked_at() {
    let angle = node(
        SyntaxKind::PATH,
        vec![node(SyntaxKind::PATH_SEGMENT, vec![fixed(SyntaxKind::L_ANGLE)])],
    );
    let odd = node(SyntaxKind::USE, vec![node(SyntaxKind::USE_TREE, vec![angle])]);
    let mut children = items(&["use std::b", "\n"]);
    children.push(odd);
    let mut scope = file_of(children);
    insert_use(&mut scope, path("std::a"), config(None, true), never, by_text);
    assert_eq!(text_of(&scope), "use std::a;\nuse std::b;\n<");
}

#[test]
fn insertions_in_any_order_sort() {
    let paths = [
        "super::z", "b::y", "std::b", "crate::c", "a::x", "self::k", "std::a", "crate::a", "b::y",
    ];
    let mut scope = file_of(vec![]);
    for new in paths {
        insert_use(&mut scope, path(new), config(None, true), never, by_text);
    }
    let list = imports_of(scope.as_syntax_node());
    let found: Vec<String> = list.iter().map(|it| it.path.syntax().to_string()).collect();
    assert_eq!(
        found,
        vec![
            "std::a", "std::b", "a::x", "b::y", "b::y", "crate::a", "crate::c", "self::k",
            "super::z",
        ]
    );
}

fn child_node(scope: &ImportScope, i: usize) -> SyntaxNode {
    match scope.as_syntax_node().child(i) {
        NodeOrToken::Node(node) => node,
        NodeOrToken::Token(_) => panic!("not a node"),
    }
}

#[test]
fn insertions_keep_the_other_imports() {
    let before = file_of(items(&["use std::a", "\n", "use std::c"]));
    let mut scope = before.clone();
    insert_use(&mut scope, path("std::d"), config(None, true), never, by_text);
    assert_eq!(text_of(&scope), "use std::a;\nuse std::c;\nuse std::d;");
    assert!(child_node(&before, 0).identical(&child_node(&scope, 0)));
    assert!(child_node(&before, 2).identical(&child_node(&scope, 2)));
    assert!(!before.as_syntax_node().identical(scope.as_syntax_node()));
}

#[test]
fn merges_keep_the_other_imports() {
    let before = file_of(items(&["use std::a", "\n", "use foo::b"]));
    let mut scope = before.clone();
    let merge = config(Some(MergeBehavior::Last), true);
    insert_use(&mut scope, path("foo::d"), merge, merge_first, by_text);
    assert_eq!(text_of(&scope), "use std::a;\nuse foo::b::{foo::d};");
    assert!(child_node(&before, 0).identical(&child_node(&scope, 0)));
    assert!(!child_node(&before, 2).identical(&child_node(&scope, 2)));
}
