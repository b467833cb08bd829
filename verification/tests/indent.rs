use syntax_edit::ast::{AstNode, MatchArmList};
use syntax_edit::edit::AstNodeEdit;
use syntax_edit::indent::{leading_indent, IndentLevel};
use syntax_edit::make;
use syntax_edit::syntax_kind::SyntaxKind;
use syntax_edit::syntax_node::{NodeOrToken, SyntaxElement, SyntaxNode, SyntaxToken};
use syntax_edit::text;
use syntax_edit::tree::SyntaxTree;

fn token(kind: SyntaxKind, text: &str) -> SyntaxTree {
    SyntaxTree::Token(kind, text.to_string())
}

fn ws(text: &str) -> SyntaxTree {
    token(SyntaxKind::WHITESPACE, text)
}

fn ident(text: &str) -> SyntaxTree {
    token(SyntaxKind::IDENT, text)
}

fn root(kind: SyntaxKind, children: Vec<SyntaxTree>) -> SyntaxNode {
    SyntaxNode::new_root(SyntaxTree::node(kind, children))
}

fn child_token(node: &SyntaxNode, i: usize) -> SyntaxToken {
    match node.child(i) {
        NodeOrToken::Token(token) => token,
        NodeOrToken::Node(_) => panic!("not a token"),
    }
}

fn child_node(node: &SyntaxNode, i: usize) -> SyntaxNode {
    match node.child(i) {
        NodeOrToken::Node(node) => node,
        NodeOrToken::Token(_) => panic!("not a node"),
    }
}

fn two_arms() -> MatchArmList {
    let arm = make::match_arm(&make::wildcard_pat(), &make::expr_unit());
    make::match_arm_list(vec![arm.clone(), arm])
}

#[test]
fn test_increase_indent() {
    let arm_list = {
        let arm = make::match_arm(&make::wildcard_pat(), &make::expr_unit());
        make::match_arm_list(vec![arm.clone(), arm])
    };
    assert_eq!(
        arm_list.syntax().to_string(),
        "{
    _ => (),
    _ => (),
}"
    );
    let indented = arm_list.indent(IndentLevel(2));
    assert_eq!(
        indented.syntax().to_string(),
        "{
            _ => (),
            _ => (),
        }"
    );
}

#[test]
fn dedent_undoes_indent() {
    let arm_list = two_arms();
    let back = arm_list.indent(IndentLevel(3)).dedent(IndentLevel(3));
    assert!(back.syntax().same(arm_list.syntax()));
}

#[test]
fn dedent_does_not_undo_indent_past_a_tab() {
    let node = root(
        SyntaxKind::MATCH_ARM_LIST,
        vec![ident("a"), ws("\n\t"), ident("b")],
    );
    let list = MatchArmList::cast(node).unwrap();
    let back = list.indent(IndentLevel(1)).dedent(IndentLevel(1));
    assert_eq!(back.syntax().to_string(), "a\n\t    b");
}

#[test]
fn dedent_takes_the_columns_from_every_line() {
    let node = root(
        SyntaxKind::MATCH_ARM_LIST,
        vec![ident("a"), ws("\n        \n    "), ident("b"), ws("\n  "), ident("c")],
    );
    let list = MatchArmList::cast(node).unwrap();
    assert_eq!(list.dedent(IndentLevel(1)).syntax().to_string(), "a\n    \nb\n  c");
}

#[test]
fn indent_leaves_other_tokens() {
    let node = root(
        SyntaxKind::MATCH_ARM_LIST,
        vec![
            token(SyntaxKind::COMMENT, "/* a\n b */"),
            ws(" "),
            token(SyntaxKind::STRING, "\"x\n\""),
            ws("\n"),
            ident("c"),
        ],
    );
    let list = MatchArmList::cast(node).unwrap();
    assert_eq!(
        list.indent(IndentLevel(1)).syntax().to_string(),
        "/* a\n b */ \"x\n\"\n    c"
    );
}

#[test]
fn indent_by_zero_changes_nothing() {
    let arm_list = two_arms();
    assert!(arm_list.indent(IndentLevel(0)).syntax().same(arm_list.syntax()));
    assert!(arm_list.dedent(IndentLevel(0)).syntax().same(arm_list.syntax()));
}

#[test]
fn indent_twice_is_indent_by_the_sum() {
    let arm_list = two_arms();
    let twice = arm_list.indent(IndentLevel(1)).indent(IndentLevel(2));
    assert!(twice.syntax().same(arm_list.indent(IndentLevel(3)).syntax()));
}

#[test]
fn reset_indent_moves_to_the_margin() {
    let inner = SyntaxTree::node(
        SyntaxKind::MATCH_ARM_LIST,
        vec![ident("{"), ws("\n        "), ident("a"), ws("\n    "), ident("}")],
    );
    let outer = root(SyntaxKind::BLOCK_EXPR, vec![ident("{"), ws("\n    "), inner]);
    let list = MatchArmList::cast(child_node(&outer, 2)).unwrap();
    assert_eq!(list.indent_level().0, 1);
    assert_eq!(list.reset_indent().syntax().to_string(), "{\n    a\n}");
}

#[test]
fn levels_follow_line_breaks() {
    let node = root(
        SyntaxKind::BLOCK_EXPR,
        vec![
            ident("a"),
            ws("\n         "),
            ident("b"),
            ws(" "),
            ident("c"),
            ws("\n  "),
            ident("d"),
        ],
    );
    assert_eq!(IndentLevel::from_token(&child_token(&node, 0)).0, 0);
    assert_eq!(IndentLevel::from_token(&child_token(&node, 2)).0, 2);
    assert_eq!(IndentLevel::from_token(&child_token(&node, 4)).0, 2);
    assert_eq!(IndentLevel::from_token(&child_token(&node, 6)).0, 0);
    assert_eq!(IndentLevel::from_node(&node).0, 0);
    let element: SyntaxElement = node.child(4);
    assert_eq!(IndentLevel::from_element(&element).0, 2);
    let element: SyntaxElement = NodeOrToken::Node(node);
    assert_eq!(IndentLevel::from_element(&element).0, 0);
}

#[test]
fn levels_wrap_in_eight_bits() {
    let deep = format!("\n{}", " ".repeat(4 * 257));
    let node = root(SyntaxKind::BLOCK_EXPR, vec![ws(&deep), ident("a")]);
    assert_eq!(IndentLevel::from_token(&child_token(&node, 1)).0, 1);
}

#[test]
fn level_is_hidden_by_an_empty_node() {
    let empty = SyntaxTree::node(SyntaxKind::NAME, vec![]);
    let node = root(SyntaxKind::BLOCK_EXPR, vec![ws("\n    "), empty, ident("a")]);
    assert_eq!(IndentLevel::from_token(&child_token(&node, 2)).0, 0);
    assert_eq!(IndentLevel::from_node(&child_node(&node, 1)).0, 0);
}

#[test]
fn level_of_indented_place() {
    let list = two_arms();
    let moved = list.indent(IndentLevel(2));
    let before = child_node(list.syntax(), 2);
    let after = child_node(moved.syntax(), 2);
    assert_eq!(IndentLevel::from_node(&before).0, 1);
    assert_eq!(IndentLevel::from_node(&after).0, 3);
    assert_eq!(IndentLevel::from_node(moved.syntax()).0, 0);
}

#[test]
fn leading_indent_of_a_line() {
    let inner = SyntaxTree::node(SyntaxKind::NAME, vec![ident("x")]);
    let node = root(
        SyntaxKind::BLOCK_EXPR,
        vec![ident("a"), ws("\n\n  \t"), ident("b"), ws(" "), inner],
    );
    assert_eq!(leading_indent(&child_node(&node, 4)), Some("  \t".to_string()));
    assert_eq!(leading_indent(&node), None);
}

#[test]
fn leading_indent_stops_at_a_long_token() {
    let inner = SyntaxTree::node(SyntaxKind::NAME, vec![ident("x")]);
    let node = root(
        SyntaxKind::BLOCK_EXPR,
        vec![ws("\n    "), token(SyntaxKind::COMMENT, "/*\n*/"), inner],
    );
    assert_eq!(leading_indent(&child_node(&node, 2)), None);
    assert_eq!(IndentLevel::from_node(&child_node(&node, 2)).0, 1);
}

#[test]
fn leading_indent_without_a_token() {
    let node = root(SyntaxKind::BLOCK_EXPR, vec![]);
    assert_eq!(leading_indent(&node), None);
}

#[test]
fn indent_levels() {
    assert_eq!(IndentLevel::single().0, 0);
    assert!(IndentLevel::single().is_zero());
    assert!(!IndentLevel(1).is_zero());
    assert_eq!(IndentLevel::from(7).0, 7);
    assert_eq!((IndentLevel(7) + 3).0, 10);
    assert_eq!(IndentLevel(0).to_string(), "");
    assert_eq!(IndentLevel(2).to_string(), "        ");
    assert_eq!(IndentLevel(255).to_string(), " ".repeat(1020));
}

#[test]
fn lines_of_text() {
    assert_eq!(text::last_line_of("ab"), "ab");
    assert_eq!(text::last_line_of("ab\n"), "");
    assert_eq!(text::last_line_of("a\nb\n\u{e9} "), "\u{e9} ");
    assert_eq!(text::last_line_of(""), "");
    assert_eq!(text::spaces(3), "   ");
    assert_eq!(text::unindent("\n    \n  x\n      ", 4), "\n\n  x\n  ");
    assert_eq!(text::unindent("    \n", 4), "    \n");
    assert!(text::contains("a\n", '\n'));
    assert!(!text::contains("a", '\n'));
}

#[test]
fn level_of_a_node_is_that_of_its_first_token() {
    let list = two_arms().indent(IndentLevel(1));
    let arm = child_node(list.syntax(), 2);
    let first = arm.first_token().unwrap();
    assert_eq!(IndentLevel::from_node(&arm).0, 2);
    assert_eq!(IndentLevel::from_token(&first).0, 2);
}

#[test]
fn level_counts_the_columns_of_the_indentation() {
    let list = two_arms().indent(IndentLevel(1));
    let arm = child_node(list.syntax(), 2);
    let columns = leading_indent(&arm).unwrap();
    assert_eq!(columns, "        ");
    assert_eq!(IndentLevel::from_node(&arm).0 as usize, columns.len() / 4);
}

#[test]
fn indentation_keeps_nodes_without_line_breaks() {
    let arm = |text: &str| SyntaxTree::node(SyntaxKind::MATCH_ARM, vec![ident(text)]);
    let node = root(SyntaxKind::MATCH_ARM_LIST, vec![arm("a"), ws("\n"), arm("b")]);
    let deeper = IndentLevel(1).increase_indent(node.clone());
    assert_eq!(deeper.to_string(), "a\n    b");
    assert!(child_node(&node, 0).identical(&child_node(&deeper, 0)));
    assert!(!node.identical(&deeper));
    let level = IndentLevel(0).increase_indent(child_node(&node, 0).clone_subtree());
    assert!(child_node(&node, 0).identical(&level));
}
