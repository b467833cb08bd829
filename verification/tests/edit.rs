use syntax_edit::algo;
use syntax_edit::algo::InsertPosition;
use syntax_edit::ast::{
    AstNode, BinExpr, GenericArgList, MatchArm, MatchArmList, Path, PathSegment, RecordExprField,
    RecordExprFieldList, Use, UseTree,
};
use syntax_edit::edit::{make_multiline, remove_attrs_and_docs, AstNodeEdit};
use syntax_edit::make;
use syntax_edit::syntax_kind::SyntaxKind;
use syntax_edit::syntax_node::{NodeOrToken, SyntaxNode};
use syntax_edit::tree::SyntaxTree;

fn token(kind: SyntaxKind, text: &str) -> SyntaxTree {
    SyntaxTree::Token(kind, text.to_string())
}

fn fixed(kind: SyntaxKind) -> SyntaxTree {
    SyntaxTree::Token(kind, kind.text().unwrap().to_string())
}

fn ws(text: &str) -> SyntaxTree {
    token(SyntaxKind::WHITESPACE, text)
}

fn node(kind: SyntaxKind, children: Vec<SyntaxTree>) -> SyntaxTree {
    SyntaxTree::node(kind, children)
}

fn name(text: &str) -> SyntaxTree {
    node(SyntaxKind::NAME_REF, vec![token(SyntaxKind::IDENT, text)])
}

fn cast<N: AstNode>(tree: SyntaxTree) -> N {
    N::cast(SyntaxNode::new_root(tree)).unwrap()
}

fn child_node(parent: &SyntaxNode, i: usize) -> SyntaxNode {
    match parent.child(i) {
        NodeOrToken::Node(node) => node,
        NodeOrToken::Token(_) => panic!("not a node"),
    }
}

fn bin_expr(op: SyntaxKind) -> BinExpr {
    let lhs = node(SyntaxKind::PATH_EXPR, vec![name("a")]);
    let rhs = node(SyntaxKind::PATH_EXPR, vec![name("b")]);
    cast(node(SyntaxKind::BIN_EXPR, vec![lhs, ws(" "), fixed(op), ws(" "), rhs]))
}

#[test]
fn replace_op_exchanges_the_operator() {
    let changed = bin_expr(SyntaxKind::EQ2).replace_op(SyntaxKind::NEQ).unwrap();
    assert_eq!(changed.syntax().to_string(), "a != b");
    let again = changed.replace_op(SyntaxKind::AMP2).unwrap();
    assert_eq!(again.syntax().to_string(), "a && b");
}

#[test]
fn replace_op_without_an_operator() {
    let expr: BinExpr = cast(node(SyntaxKind::BIN_EXPR, vec![name("a")]));
    assert!(expr.replace_op(SyntaxKind::PLUS).is_none());
}

#[test]
fn replace_op_keeps_what_is_around() {
    let expr = bin_expr(SyntaxKind::PLUS).syntax().green().clone();
    let outer = SyntaxNode::new_root(node(
        SyntaxKind::PAREN_EXPR,
        vec![fixed(SyntaxKind::L_PAREN), expr, fixed(SyntaxKind::R_PAREN)],
    ));
    let inner = BinExpr::cast(child_node(&outer, 1)).unwrap();
    let changed = inner.replace_op(SyntaxKind::MINUS).unwrap();
    assert_eq!(changed.syntax().to_string(), "a - b");
    assert_eq!(changed.syntax().parent().unwrap().to_string(), "(a - b)");
    assert_eq!(outer.to_string(), "(a + b)");
}

fn field(text: &str) -> SyntaxTree {
    node(SyntaxKind::RECORD_EXPR_FIELD, vec![name(text)])
}

fn new_field(text: &str) -> RecordExprField {
    cast(field(text))
}

fn fields(children: Vec<SyntaxTree>) -> RecordExprFieldList {
    cast(node(SyntaxKind::RECORD_EXPR_FIELD_LIST, children))
}

fn one_line() -> RecordExprFieldList {
    fields(vec![
        fixed(SyntaxKind::L_CURLY),
        ws(" "),
        field("a"),
        fixed(SyntaxKind::COMMA),
        ws(" "),
        field("b"),
        ws(" "),
        fixed(SyntaxKind::R_CURLY),
    ])
}

#[test]
fn append_field_on_one_line() {
    let list = one_line().append_field(&new_field("c"));
    assert_eq!(list.syntax().to_string(), "{ a, b, c }");
}

#[test]
fn append_field_to_an_empty_list() {
    let list = fields(vec![fixed(SyntaxKind::L_CURLY), fixed(SyntaxKind::R_CURLY)]);
    assert_eq!(list.append_field(&new_field("c")).syntax().to_string(), "{ c}");
}

#[test]
fn append_field_on_several_lines() {
    let list = node(
        SyntaxKind::RECORD_EXPR_FIELD_LIST,
        vec![
            fixed(SyntaxKind::L_CURLY),
            ws("\n        "),
            field("a"),
            fixed(SyntaxKind::COMMA),
            ws("\n    "),
            fixed(SyntaxKind::R_CURLY),
        ],
    );
    let outer = SyntaxNode::new_root(node(
        SyntaxKind::BLOCK_EXPR,
        vec![fixed(SyntaxKind::L_CURLY), ws("\n    "), name("S"), ws(" "), list],
    ));
    let list = RecordExprFieldList::cast(child_node(&outer, 4)).unwrap();
    assert_eq!(
        list.append_field(&new_field("b")).syntax().to_string(),
        "{\n        a,\n        b,\n    }"
    );
}

#[test]
fn insert_field_at_each_position() {
    let list = one_line();
    let a = RecordExprField::cast(child_node(list.syntax(), 2)).unwrap();
    let b = RecordExprField::cast(child_node(list.syntax(), 5)).unwrap();
    let new = new_field("c");
    let first = list.insert_field(InsertPosition::First, &new);
    assert_eq!(first.syntax().to_string(), "{ c, a, b }");
    let last = list.insert_field(InsertPosition::Last, &new);
    assert_eq!(last.syntax().to_string(), "{ a, b, c }");
    let before = list.insert_field(InsertPosition::Before(&b), &new);
    assert_eq!(before.syntax().to_string(), "{ a,  c,b }");
    let after = list.insert_field(InsertPosition::After(&a), &new);
    assert_eq!(after.syntax().to_string(), "{ a, c, b }");
    let after = list.insert_field(InsertPosition::After(&b), &new);
    assert_eq!(after.syntax().to_string(), "{ a, b, c, }");
}

#[test]
fn insert_field_without_a_bracket() {
    let list = fields(vec![ws(" ")]);
    assert!(list.append_field(&new_field("c")).syntax().same(list.syntax()));
    let first = list.insert_field(InsertPosition::First, &new_field("c"));
    assert!(first.syntax().same(list.syntax()));
}

fn segment_tree(text: &str) -> SyntaxTree {
    let kind = match text {
        "self" => SyntaxKind::SELF_KW,
        "super" => SyntaxKind::SUPER_KW,
        "crate" => SyntaxKind::CRATE_KW,
        _ => SyntaxKind::IDENT,
    };
    node(
        SyntaxKind::PATH_SEGMENT,
        vec![node(SyntaxKind::NAME_REF, vec![token(kind, text)])],
    )
}

fn path_tree(text: &str) -> SyntaxTree {
    let mut tree: Option<SyntaxTree> = None;
    for part in text.split("::") {
        let segment = segment_tree(part);
        tree = Some(match tree {
            None => node(SyntaxKind::PATH, vec![segment]),
            Some(qualifier) => node(
                SyntaxKind::PATH,
                vec![qualifier, fixed(SyntaxKind::COLON2), segment],
            ),
        });
    }
    tree.unwrap()
}

#[test]
fn with_segment_exchanges_the_last_segment() {
    let path: Path = cast(path_tree("a::b::c"));
    let changed = path.with_segment(cast(segment_tree("d")));
    assert_eq!(changed.syntax().to_string(), "a::b::d");
    let again = changed.with_segment(cast(segment_tree("e")));
    assert!(again.syntax().same(path.with_segment(cast(segment_tree("e"))).syntax()));
}

#[test]
fn with_segment_without_a_segment() {
    let path: Path = cast(node(SyntaxKind::PATH, vec![path_tree("a"), fixed(SyntaxKind::COLON2)]));
    let same = path.with_segment(cast(segment_tree("d")));
    assert!(same.syntax().same(path.syntax()));
}

fn args(text: &str) -> GenericArgList {
    cast(node(
        SyntaxKind::GENERIC_ARG_LIST,
        vec![fixed(SyntaxKind::L_ANGLE), name(text), fixed(SyntaxKind::R_ANGLE)],
    ))
}

#[test]
fn generic_args_are_added_and_exchanged() {
    let segment: PathSegment = cast(segment_tree("Vec"));
    let with = segment.with_generic_args(args("T"));
    assert_eq!(with.syntax().to_string(), "Vec<T>");
    assert_eq!(with.with_generic_args(args("U")).syntax().to_string(), "Vec<U>");
    assert_eq!(with.with_turbo_fish(args("U")).syntax().to_string(), "Vec<U>");
    let turbo = segment.with_turbo_fish(args("T"));
    assert_eq!(turbo.syntax().to_string(), "Vec::<T>");
    assert_eq!(turbo.with_generic_args(args("U")).syntax().to_string(), "Vec::<U>");
}

fn use_tree_of(path: &str, rest: Vec<SyntaxTree>) -> UseTree {
    let mut children = vec![path_tree(path)];
    children.extend(rest);
    cast(node(SyntaxKind::USE_TREE, children))
}

fn prefix(tree: &UseTree, qualifiers: usize) -> Path {
    let mut path = tree.path().unwrap();
    for _ in 0..qualifiers {
        path = path.qualifier().unwrap();
    }
    path
}

#[test]
fn split_prefix_moves_the_rest_into_a_list() {
    let tree = use_tree_of("a::b::c::d", vec![]);
    assert_eq!(tree.split_prefix(&prefix(&tree, 3)).syntax().to_string(), "a::{b::c::d}");
    assert_eq!(tree.split_prefix(&prefix(&tree, 2)).syntax().to_string(), "a::b::{c::d}");
    assert_eq!(tree.split_prefix(&prefix(&tree, 1)).syntax().to_string(), "a::b::c::{d}");
}

#[test]
fn split_prefix_of_the_whole_path() {
    let tree = use_tree_of("a::b", vec![]);
    assert_eq!(tree.split_prefix(&prefix(&tree, 0)).syntax().to_string(), "a::b::{self}");
}

#[test]
fn split_prefix_keeps_what_follows() {
    let star = use_tree_of(
        "a::b",
        vec![fixed(SyntaxKind::COLON2), fixed(SyntaxKind::STAR)],
    );
    assert_eq!(star.split_prefix(&prefix(&star, 1)).syntax().to_string(), "a::{b::*}");
    let alias = node(
        SyntaxKind::RENAME,
        vec![
            fixed(SyntaxKind::AS_KW),
            ws(" "),
            node(SyntaxKind::NAME, vec![token(SyntaxKind::IDENT, "c")]),
        ],
    );
    let renamed = use_tree_of("a::b", vec![ws(" "), alias]);
    assert_eq!(
        renamed.split_prefix(&prefix(&renamed, 1)).syntax().to_string(),
        "a::{b as c}"
    );
    let list = node(
        SyntaxKind::USE_TREE_LIST,
        vec![
            fixed(SyntaxKind::L_CURLY),
            node(SyntaxKind::USE_TREE, vec![path_tree("c")]),
            fixed(SyntaxKind::R_CURLY),
        ],
    );
    let listed = use_tree_of("a::b", vec![fixed(SyntaxKind::COLON2), list]);
    assert_eq!(listed.split_prefix(&prefix(&listed, 1)).syntax().to_string(), "a::{b::{c}}");
    let same = listed.split_prefix(&prefix(&listed, 0));
    assert!(same.syntax().same(listed.syntax()));
}

#[test]
fn split_prefix_stops_at_errors() {
    let broken = node(
        SyntaxKind::PATH,
        vec![
            path_tree("a"),
            fixed(SyntaxKind::COLON2),
            node(SyntaxKind::PATH_SEGMENT, vec![node(SyntaxKind::ERROR, vec![])]),
        ],
    );
    let tree: UseTree = cast(node(SyntaxKind::USE_TREE, vec![broken]));
    assert!(tree.split_prefix(&prefix(&tree, 1)).syntax().same(tree.syntax()));
}

#[test]
fn split_prefix_stops_at_a_path_without_a_segment() {
    let broken = node(SyntaxKind::PATH, vec![path_tree("a::b"), fixed(SyntaxKind::COLON2)]);
    let tree: UseTree = cast(node(SyntaxKind::USE_TREE, vec![broken]));
    assert!(tree.split_prefix(&prefix(&tree, 1)).syntax().same(tree.syntax()));
    assert!(tree.split_prefix(&prefix(&tree, 2)).syntax().same(tree.syntax()));
}

fn arm(text: &str) -> SyntaxTree {
    let pat = match text {
        "_" => node(SyntaxKind::WILDCARD_PAT, vec![fixed(SyntaxKind::UNDERSCORE)]),
        _ => node(SyntaxKind::IDENT_PAT, vec![token(SyntaxKind::IDENT, text)]),
    };
    let unit = node(
        SyntaxKind::TUPLE_EXPR,
        vec![fixed(SyntaxKind::L_PAREN), fixed(SyntaxKind::R_PAREN)],
    );
    node(
        SyntaxKind::MATCH_ARM,
        vec![pat, ws(" "), fixed(SyntaxKind::FAT_ARROW), ws(" "), unit],
    )
}

fn arm_list(inner: Vec<SyntaxTree>) -> MatchArmList {
    let mut children = vec![fixed(SyntaxKind::L_CURLY)];
    children.extend(inner);
    children.push(fixed(SyntaxKind::R_CURLY));
    cast(node(SyntaxKind::MATCH_ARM_LIST, children))
}

fn new_arms(texts: &[&str]) -> Vec<MatchArm> {
    texts.iter().map(|text| cast(arm(text))).collect()
}

#[test]
fn append_arms_to_an_empty_list() {
    let list = arm_list(vec![]);
    assert_eq!(
        list.append_arms(new_arms(&["a", "b"])).syntax().to_string(),
        "{\n    a => ()\n    b => ()\n}"
    );
}

#[test]
fn append_arms_strips_blank_lists() {
    let list = arm_list(vec![ws("  "), ws("\n\n  ")]);
    assert_eq!(
        list.append_arms(new_arms(&["a"])).syntax().to_string(),
        "{\n    a => ()\n}"
    );
}

#[test]
fn append_arms_opens_a_line() {
    let list = arm_list(vec![ws(" "), arm("a"), fixed(SyntaxKind::COMMA), ws(" ")]);
    assert_eq!(
        list.append_arms(new_arms(&["b"])).syntax().to_string(),
        "{\na => (),     b => ()\n}"
    );
}

#[test]
fn append_arms_keeps_the_indentation() {
    let list = arm_list(vec![ws("\n        "), arm("a"), fixed(SyntaxKind::COMMA), ws("\n    ")]);
    let outer = SyntaxNode::new_root(node(
        SyntaxKind::MATCH_EXPR,
        vec![ws("\n    "), fixed(SyntaxKind::MATCH_KW), ws(" "), list.syntax().green().clone()],
    ));
    let list = MatchArmList::cast(child_node(&outer, 3)).unwrap();
    assert_eq!(
        list.append_arms(new_arms(&["b", "c"])).syntax().to_string(),
        "{\n        a => (),\n        b => ()\n        c => ()\n    }"
    );
}

#[test]
fn append_arms_in_turn() {
    let list = arm_list(vec![ws("\n    "), arm("a"), fixed(SyntaxKind::COMMA), ws("\n")]);
    let all = list.append_arms(new_arms(&["b", "c"]));
    let some = list.append_arms(new_arms(&["b"]));
    let rest = some.append_arms(new_arms(&["c"]));
    assert!(all.syntax().same(rest.syntax()));
    let one = list.append_arm(cast(arm("b")));
    assert!(one.syntax().same(some.syntax()));
}

#[test]
fn append_arm_without_a_bracket() {
    let list: MatchArmList =
        cast(node(SyntaxKind::MATCH_ARM_LIST, vec![fixed(SyntaxKind::L_CURLY)]));
    assert!(list.append_arm(cast(arm("a"))).syntax().same(list.syntax()));
}

#[test]
fn remove_placeholder_takes_the_comma_along() {
    let list = arm_list(vec![
        ws("\n    "),
        arm("a"),
        fixed(SyntaxKind::COMMA),
        ws("\n    "),
        arm("_"),
        token(SyntaxKind::COMMENT, "/* c */"),
        fixed(SyntaxKind::COMMA),
        ws("\n    "),
        arm("_"),
        ws("\n"),
    ]);
    let left = list.remove_placeholder();
    assert_eq!(left.syntax().to_string(), "{\n    a => (),\n    \n    _ => ()\n}");
    let none = left.remove_placeholder();
    assert_eq!(none.syntax().to_string(), "{\n    a => (),\n    \n    \n}");
    assert!(none.remove_placeholder().syntax().same(none.syntax()));
}

#[test]
fn remove_placeholder_looks_at_the_first_pattern() {
    let odd = node(SyntaxKind::MATCH_ARM, vec![fixed(SyntaxKind::FAT_ARROW)]);
    let list = arm_list(vec![odd, arm("a")]);
    assert!(list.remove_placeholder().syntax().same(list.syntax()));
}

fn attr(text: &str) -> SyntaxTree {
    node(
        SyntaxKind::ATTR,
        vec![
            fixed(SyntaxKind::POUND),
            fixed(SyntaxKind::L_BRACK),
            name(text),
            fixed(SyntaxKind::R_BRACK),
        ],
    )
}

#[test]
fn attributes_and_comments_are_removed() {
    let item: Use = cast(node(
        SyntaxKind::USE,
        vec![
            token(SyntaxKind::COMMENT, "/// doc"),
            ws("\n"),
            attr("a"),
            attr("b"),
            ws(" "),
            fixed(SyntaxKind::USE_KW),
            ws(" "),
            node(SyntaxKind::USE_TREE, vec![path_tree("a::b")]),
            token(SyntaxKind::COMMENT, "/* c */"),
            fixed(SyntaxKind::SEMICOLON),
        ],
    ));
    let bare = remove_attrs_and_docs(&item);
    assert_eq!(bare.syntax().to_string(), "use a::b;");
    assert!(remove_attrs_and_docs(&bare).syntax().same(bare.syntax()));
}

#[test]
fn children_are_inserted_and_replaced() {
    let list = one_line();
    let comma = || vec![NodeOrToken::Token(make::token(SyntaxKind::COMMA))];
    let first = list.insert_children(InsertPosition::First, comma());
    assert_eq!(first.syntax().to_string(), ",{ a, b }");
    let last = list.insert_children(InsertPosition::Last, comma());
    assert_eq!(last.syntax().to_string(), "{ a, b },");
    let before = list.insert_children(InsertPosition::Before(list.syntax().child(1)), comma());
    assert_eq!(before.syntax().to_string(), "{, a, b }");
    let after = list.insert_children(InsertPosition::After(list.syntax().child(1)), comma());
    assert_eq!(after.syntax().to_string(), "{ ,a, b }");
    let range = list.syntax().child(1)..=list.syntax().child(4);
    let replaced = list.replace_children(range, comma());
    assert_eq!(replaced.syntax().to_string(), "{,b }");
    let range = first.syntax().child(0)..=first.syntax().child(0);
    let back = first.replace_children(range, vec![]);
    assert!(back.syntax().same(list.syntax()));
}

#[test]
fn errors_are_found_among_the_children() {
    let fine = SyntaxNode::new_root(node(SyntaxKind::PATH_SEGMENT, vec![name("a")]));
    assert!(!algo::has_errors(&fine));
    let error = node(SyntaxKind::ERROR, vec![]);
    let deep = node(SyntaxKind::NAME_REF, vec![error.clone()]);
    let inner = SyntaxNode::new_root(node(SyntaxKind::PATH_SEGMENT, vec![deep]));
    assert!(!algo::has_errors(&inner));
    let broken = SyntaxNode::new_root(node(SyntaxKind::PATH_SEGMENT, vec![name("a"), error]));
    assert!(algo::has_errors(&broken));
}

#[test]
fn places_are_walked() {
    let list = one_line();
    let syntax = list.syntax();
    assert_eq!(syntax.children_with_tokens().len(), 8);
    let a = child_node(syntax, 2);
    assert_eq!(a.index(), 2);
    assert!(a.parent().unwrap().same(syntax));
    assert!(syntax.parent().is_none());
    let token = a.first_token().unwrap();
    assert_eq!(token.text(), "a");
    assert_eq!(token.prev_token().unwrap().text(), " ");
    assert_eq!(token.next_token().unwrap().text(), ",");
    let bracket = syntax.first_token().unwrap();
    assert!(bracket.prev_token().is_none());
    assert_eq!(bracket.next_token().unwrap().text(), " ");
    assert!(a.clone_for_update().same(&a));
    assert_eq!(a.clone_subtree().to_string(), "a");
}

#[test]
fn multiline_lists_stay_as_they_are() {
    let list = arm_list(vec![ws(" "), arm("a"), ws(" ")]);
    let open = list.append_arms(vec![]);
    assert_eq!(open.syntax().to_string(), "{\na => () }");
    assert!(open.append_arms(vec![]).syntax().same(open.syntax()));
}

#[test]
fn use_trees_have_their_parts() {
    let path: Path = cast(path_tree("a::b"));
    let plain = make::use_tree(&path, None, None, false);
    assert!(plain.use_tree_list().is_none());
    assert!(plain.rename().is_none());
    assert!(plain.star_token().is_none());
    let alias = cast(node(SyntaxKind::RENAME, vec![fixed(SyntaxKind::AS_KW)]));
    let list = make::use_tree_list(&plain);
    let full = make::use_tree(&path, Some(list), Some(alias), true);
    assert_eq!(full.syntax().to_string(), "a::b::{a::b}::* as");
    assert_eq!(full.path().unwrap().syntax().to_string(), "a::b");
    assert_eq!(full.use_tree_list().unwrap().syntax().to_string(), "{a::b}");
    assert_eq!(full.rename().unwrap().syntax().to_string(), "as");
    assert!(full.star_token().is_some());
}

#[test]
fn split_prefix_knows_its_own_path() {
    let tree = use_tree_of("a::b", vec![]);
    let apart = use_tree_of("a::b", vec![]);
    let same = tree.split_prefix(&prefix(&apart, 0));
    assert_eq!(same.syntax().to_string(), "a::b");
    assert!(same.syntax().same(tree.syntax()));
    let shared = UseTree::cast(tree.syntax().clone_subtree()).unwrap();
    assert_eq!(tree.split_prefix(&prefix(&shared, 0)).syntax().to_string(), "a::b::{self}");
    let again = make::use_tree(&prefix(&tree, 0), None, None, false);
    assert_eq!(tree.split_prefix(&prefix(&again, 0)).syntax().to_string(), "a::b");
}

#[test]
fn nodes_are_told_apart() {
    let tree = use_tree_of("a::b", vec![]);
    let apart = use_tree_of("a::b", vec![]);
    let path = child_node(tree.syntax(), 0);
    assert!(path.identical(&child_node(tree.syntax(), 0)));
    assert!(path.identical(&path.clone_for_update()));
    assert!(path.identical(&path.clone_subtree()));
    assert!(!path.identical(&child_node(apart.syntax(), 0)));
    assert!(path.same(&child_node(apart.syntax(), 0)));
    assert!(!path.identical(&child_node(&path, 0)));
    let green = path.green().clone();
    let later = SyntaxNode::new_root(node(
        SyntaxKind::USE_TREE,
        vec![ws(" "), green.clone(), green],
    ));
    assert!(!path.identical(&child_node(&later, 1)));
    assert!(!child_node(&later, 1).identical(&child_node(&later, 2)));
}

#[test]
fn edits_elsewhere_keep_nodes() {
    let list = one_line();
    let changed = list.append_field(&new_field("c"));
    let before = child_node(list.syntax(), 2);
    let after = child_node(changed.syntax(), 2);
    assert!(before.identical(&after));
    assert!(!list.syntax().identical(changed.syntax()));
}

#[test]
fn children_that_stay_keep_their_nodes() {
    let list = one_line();
    let first = child_node(list.syntax(), 2);
    let second = child_node(list.syntax(), 5);
    let comma = || vec![NodeOrToken::Token(make::token(SyntaxKind::COMMA))];
    let longer = list.insert_children(InsertPosition::Last, comma());
    assert!(first.identical(&child_node(longer.syntax(), 2)));
    assert!(second.identical(&child_node(longer.syntax(), 5)));
    let range = list.syntax().child(3)..=list.syntax().child(3);
    let replaced = list.replace_children(range, comma());
    assert_eq!(replaced.syntax().to_string(), list.syntax().to_string());
    assert!(first.identical(&child_node(replaced.syntax(), 2)));
    assert!(second.identical(&child_node(replaced.syntax(), 5)));
    assert!(!list.syntax().identical(replaced.syntax()));
}

#[test]
fn edits_keep_the_nodes_beside_them() {
    let side = || node(SyntaxKind::PATH_EXPR, vec![name("s")]);
    let expr = bin_expr(SyntaxKind::PLUS).syntax().green().clone();
    let outer = SyntaxNode::new_root(node(SyntaxKind::PAREN_EXPR, vec![side(), expr, side()]));
    let inner = BinExpr::cast(child_node(&outer, 1)).unwrap();
    let changed = inner.replace_op(SyntaxKind::MINUS).unwrap();
    let around = changed.syntax().parent().unwrap();
    assert!(child_node(&outer, 0).identical(&child_node(&around, 0)));
    assert!(!child_node(&outer, 1).identical(&child_node(&around, 1)));
    assert!(child_node(&outer, 2).identical(&child_node(&around, 2)));
    assert!(child_node(inner.syntax(), 0).identical(&child_node(changed.syntax(), 0)));
    assert!(child_node(inner.syntax(), 4).identical(&child_node(changed.syntax(), 4)));
    assert!(!outer.identical(&around));
}

#[test]
fn split_prefix_knows_its_own_path_after_an_edit() {
    let tree = use_tree_of("a::b", vec![]);
    let old = prefix(&tree, 0);
    let changed = tree.insert_children(
        InsertPosition::Last,
        vec![NodeOrToken::Token(make::single_space())],
    );
    assert_eq!(changed.split_prefix(&old).syntax().to_string(), "a::b::{self}");
}

#[test]
fn a_list_is_put_on_several_lines_once() {
    let list = make_multiline(one_line());
    assert_eq!(list.syntax().to_string(), "{\na, b }");
    let again = make_multiline(list.clone());
    assert!(again.syntax().identical(list.syntax()));
}

#[test]
fn append_arms_after_a_stray_bracket() {
    let list: MatchArmList = cast(node(
        SyntaxKind::MATCH_ARM_LIST,
        vec![
            fixed(SyntaxKind::R_CURLY),
            fixed(SyntaxKind::L_CURLY),
            fixed(SyntaxKind::R_CURLY),
        ],
    ));
    let all = list.append_arms(new_arms(&["a", "b"]));
    let turns = list.append_arms(new_arms(&["a"])).append_arms(new_arms(&["b"]));
    assert_eq!(all.syntax().to_string(), "    a => ()\n    b => ()\n}{\n}");
    assert_eq!(turns.syntax().to_string(), "    a => ()\n    b => ()\n}{}");
}

#[test]
fn append_arms_to_an_empty_list_in_turn() {
    let list = arm_list(vec![ws(" ")]);
    let all = list.append_arms(new_arms(&["a", "b"]));
    let none = list.append_arms(vec![]);
    assert_eq!(none.syntax().to_string(), "{\n}");
    let turns = none.append_arms(new_arms(&["a"])).append_arms(new_arms(&["b"]));
    assert!(all.syntax().same(turns.syntax()));
}
