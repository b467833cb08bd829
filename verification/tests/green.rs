use syntax_edit::ast::AstNode;
use syntax_edit::green::{from_green, to_green};
use syntax_edit::make;
use syntax_edit::syntax_kind::SyntaxKind;
use syntax_edit::syntax_node::SyntaxNode;
use syntax_edit::tree::SyntaxTree;

fn arms() -> SyntaxNode {
    let arm = make::match_arm(&make::wildcard_pat(), &make::expr_unit());
    make::match_arm_list(vec![arm.clone(), arm]).syntax().clone()
}

#[test]
fn green_tree_has_the_kind_and_the_text() {
    let node = arms();
    let green = to_green(&node);
    assert_eq!(green.kind(), rowan::SyntaxKind(SyntaxKind::MATCH_ARM_LIST.to_raw()));
    assert_eq!(format!("{}", green), node.to_string());
    assert_eq!(green.children().count(), 9);
}

#[test]
fn green_tree_reads_back() {
    let node = arms();
    let back = from_green(&to_green(&node)).unwrap();
    assert!(back.same(&node));
}

#[test]
fn green_tree_of_a_part() {
    let node = arms();
    let part = match node.child(2) {
        syntax_edit::syntax_node::NodeOrToken::Node(part) => part,
        syntax_edit::syntax_node::NodeOrToken::Token(_) => panic!("not a node"),
    };
    let back = from_green(&to_green(&part)).unwrap();
    assert_eq!(back.to_string(), "_ => ()");
    assert!(back.same(&part.clone_subtree()));
    assert!(!back.same(&part));
}

#[test]
fn green_tree_with_empty_parts() {
    let tree = SyntaxTree::node(
        SyntaxKind::SOURCE_FILE,
        vec![
            SyntaxTree::node(SyntaxKind::NAME, vec![]),
            SyntaxTree::Token(SyntaxKind::IDENT, String::new()),
            SyntaxTree::Token(SyntaxKind::COMMENT, "// \u{e9}\u{1f600}".to_string()),
            SyntaxTree::node(SyntaxKind::NAME, vec![]),
        ],
    );
    let node = SyntaxNode::new_root(tree);
    let green = to_green(&node);
    assert_eq!(u32::from(green.text_len()), 9);
    assert!(from_green(&green).unwrap().same(&node));
}

#[test]
fn green_tree_of_another_parser() {
    let mut builder = rowan::GreenNodeBuilder::new();
    builder.start_node(rowan::SyntaxKind(SyntaxKind::NAME.to_raw()));
    builder.token(rowan::SyntaxKind(SyntaxKind::IDENT.to_raw()), "x");
    builder.finish_node();
    let node = from_green(&builder.finish()).unwrap();
    assert_eq!(node.kind(), SyntaxKind::NAME);
    assert_eq!(node.to_string(), "x");
}

#[test]
fn green_tree_with_unknown_kinds() {
    let mut builder = rowan::GreenNodeBuilder::new();
    builder.start_node(rowan::SyntaxKind(60000));
    builder.finish_node();
    assert!(from_green(&builder.finish()).is_none());
    let mut builder = rowan::GreenNodeBuilder::new();
    builder.start_node(rowan::SyntaxKind(SyntaxKind::NAME.to_raw()));
    builder.token(rowan::SyntaxKind(60000), "x");
    builder.finish_node();
    assert!(from_green(&builder.finish()).is_none());
}

#[test]
fn kinds_and_numbers() {
    let mut raw: u16 = 0;
    while let Some(kind) = SyntaxKind::from_raw(raw) {
        assert_eq!(kind.to_raw(), raw);
        raw += 1;
    }
    assert_eq!(SyntaxKind::from_raw(u16::MAX), None);
    assert_eq!(SyntaxKind::SEMICOLON.text(), Some(";"));
    assert_eq!(SyntaxKind::IDENT.text(), None);
    assert!(SyntaxKind::COMMENT.is_trivia());
    assert!(!SyntaxKind::IDENT.is_trivia());
    assert!(SyntaxKind::PLUS.is_binary_operator());
    assert!(!SyntaxKind::COMMA.is_binary_operator());
}

/// The texts of the tokens from the first token on, and back from the last one that is reached.
fn walk_here(node: &SyntaxNode) -> Vec<String> {
    let mut texts = vec![];
    let mut at = node.first_token();
    let mut last = None;
    while let Some(token) = at {
        texts.push(token.text().to_string());
        at = token.next_token();
        last = Some(token);
    }
    while let Some(token) = last {
        texts.push(token.text().to_string());
        last = token.prev_token();
    }
    texts
}

fn walk_there(node: &rowan::cursor::SyntaxNode) -> Vec<String> {
    let mut texts = vec![];
    let mut at = node.first_token();
    let mut last = None;
    while let Some(token) = at {
        texts.push(token.text().to_string());
        at = token.next_token();
        last = Some(token);
    }
    while let Some(token) = last {
        texts.push(token.text().to_string());
        last = token.prev_token();
    }
    texts
}

#[test]
fn tokens_are_walked_as_rowan_walks_them() {
    let node = arms();
    let there = rowan::cursor::SyntaxNode::new_root(to_green(&node));
    assert_eq!(walk_here(&node), walk_there(&there));
    assert_eq!(walk_here(&node).len(), 38);
}

#[test]
fn empty_nodes_stop_a_walk_as_in_rowan() {
    let ident = |text: &str| SyntaxTree::Token(SyntaxKind::IDENT, text.to_string());
    let empty = || SyntaxTree::node(SyntaxKind::NAME, vec![]);
    let full = |text: &str| SyntaxTree::node(SyntaxKind::NAME, vec![ident(text)]);
    let trees = vec![
        vec![ident("a"), full("b"), empty(), ident("c")],
        vec![empty(), ident("a")],
        vec![],
        vec![full("a"), SyntaxTree::node(SyntaxKind::NAME, vec![empty(), ident("b")])],
    ];
    for children in trees {
        let node = SyntaxNode::new_root(SyntaxTree::node(SyntaxKind::SOURCE_FILE, children));
        let there = rowan::cursor::SyntaxNode::new_root(to_green(&node));
        assert_eq!(walk_here(&node), walk_there(&there));
    }
}
