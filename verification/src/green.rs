//! Syntax trees as [`rowan`] keeps them, built from the trees of this library and read back.
use rowan::cursor;
use rowan::{GreenNode, GreenToken, NodeOrToken, WalkEvent};
use vstd::pervasive::unreached;
use vstd::prelude::*;
use vstd::utf8::encode_utf8;

use crate::syntax_kind;
use crate::syntax_kind::SyntaxKind;
use crate::syntax_node::SyntaxNode;
use crate::tree;
use crate::tree::{SyntaxTree, Tree};

verus! {

/// `rowan::GreenNode`: a node with all that stands in it.
#[verifier::external_type_specification]
#[verifier::external_body]
pub struct ExGreenNode(GreenNode);

/// `rowan::GreenToken`: a token.
#[verifier::external_type_specification]
#[verifier::external_body]
pub struct ExGreenToken(GreenToken);

/// A step of a walk over a tree: into a node or a token, or out of it. Kinds are numbers.
#[derive(Debug)]
pub enum Step {
    EnterNode(u16),
    EnterToken(u16, String),
    LeaveNode(u16),
    LeaveToken(u16, String),
}

/// A step, as contracts speak of it.
pub enum Event {
    EnterNode(u16),
    EnterToken(u16, Seq<char>),
    LeaveNode(u16),
    LeaveToken(u16, Seq<char>),
}

impl View for Step {
    type V = Event;

    open spec fn view(&self) -> Event {
        match self {
            Step::EnterNode(kind) => Event::EnterNode(*kind),
            Step::EnterToken(kind, text) => Event::EnterToken(*kind, text@),
            Step::LeaveNode(kind) => Event::LeaveNode(*kind),
            Step::LeaveToken(kind, text) => Event::LeaveToken(*kind, text@),
        }
    }
}

/// The steps in a sequence.
pub open spec fn events(steps: Seq<Step>) -> Seq<Event> {
    Seq::new(steps.len(), |i: int| steps[i]@)
}

/// The walk over a tree: each part is entered, then its children are walked over in text order,
/// then it is left.
pub open spec fn walked(tree: Tree) -> Seq<Event>
    decreases tree,
{
    match tree {
        Tree::Node(kind, children) => seq![Event::EnterNode(kind.raw())] + walked_of(children)
            + seq![Event::LeaveNode(kind.raw())],
        Tree::Token(kind, text) => seq![
            Event::EnterToken(kind.raw(), text),
            Event::LeaveToken(kind.raw(), text),
        ],
    }
}

/// The walks over trees, one after the other.
pub open spec fn walked_of(trees: Seq<Tree>) -> Seq<Event>
    decreases trees,
{
    if trees.len() == 0 {
        Seq::empty()
    } else {
        walked_of(trees.drop_last()) + walked(trees.last())
    }
}

/// The texts of the tokens that are entered.
pub open spec fn texts(events: Seq<Event>) -> Seq<char>
    decreases events.len(),
{
    if events.len() == 0 {
        Seq::empty()
    } else {
        texts(events.drop_last()) + match events.last() {
            Event::EnterToken(_, text) => text,
            _ => Seq::empty(),
        }
    }
}

/// The number of bytes of a text.
pub open spec fn size(text: Seq<char>) -> nat {
    encode_utf8(text).len()
}

/// The walk over what a node of `rowan` holds.
pub uninterp spec fn walk(green: GreenNode) -> Seq<Event>;

/// The walk over a token of `rowan`.
pub uninterp spec fn leaf(green: GreenToken) -> Seq<Event>;

/// A node or a token of `rowan`.
pub enum Green {
    Node(GreenNode),
    Token(GreenToken),
}

/// The walks over nodes and tokens of `rowan`, one after the other.
pub open spec fn walks(parts: Seq<Green>) -> Seq<Event>
    decreases parts.len(),
{
    if parts.len() == 0 {
        Seq::empty()
    } else {
        walks(parts.drop_last()) + match parts.last() {
            Green::Node(node) => walk(node),
            Green::Token(token) => leaf(token),
        }
    }
}

/// `rowan::GreenToken::new`: a token of the kind with the number `kind`, with the text `text`.
#[verifier::external_body]
fn new_token(kind: u16, text: &str) -> (r: GreenToken)
    ensures
        leaf(r) == seq![Event::EnterToken(kind, text@), Event::LeaveToken(kind, text@)],
{
    GreenToken::new(rowan::SyntaxKind(kind), text)
}

/// `rowan::GreenNode::new`: a node of the kind with the number `kind`, with the children
/// `children`. It counts the bytes of its text in 32 bits.
#[verifier::external_body]
fn new_node(kind: u16, children: Vec<Green>) -> (r: GreenNode)
    requires
        size(texts(walks(children@))) <= u32::MAX,
    ensures
        walk(r) == seq![Event::EnterNode(kind)] + walks(children@) + seq![Event::LeaveNode(kind)],
{
    let children = children.into_iter().map(
        |child| match child {
            Green::Node(node) => NodeOrToken::Node(node),
            Green::Token(token) => NodeOrToken::Token(token),
        },
    );
    GreenNode::new(rowan::SyntaxKind(kind), children)
}

/// `rowan::cursor::SyntaxNode::preorder_with_tokens`: the walk over what `green` holds.
#[verifier::external_body]
fn preorder(green: &GreenNode) -> (r: Vec<Step>)
    ensures
        events(r@) == walk(*green),
{
    let root = cursor::SyntaxNode::new_root(green.clone());
    root.preorder_with_tokens().map(|event| match event {
        WalkEvent::Enter(NodeOrToken::Node(it)) => Step::EnterNode(it.kind().0),
        WalkEvent::Enter(NodeOrToken::Token(it)) => Step::EnterToken(it.kind().0, it.text().into()),
        WalkEvent::Leave(NodeOrToken::Node(it)) => Step::LeaveNode(it.kind().0),
        WalkEvent::Leave(NodeOrToken::Token(it)) => Step::LeaveToken(it.kind().0, it.text().into()),
    }).collect()
}

/// Bytes of two texts are the bytes of the joined text.
proof fn size_join(a: Seq<char>, b: Seq<char>)
    ensures
        size(a + b) == size(a) + size(b),
    decreases a.len(),
{
    if a.len() == 0 {
        assert(a + b =~= b);
    } else {
        assert((a + b).drop_first() =~= a.drop_first() + b);
        size_join(a.drop_first(), b);
    }
}

/// No part has more bytes than the whole.
proof fn size_of_part(trees: Seq<Tree>, i: int)
    requires
        0 <= i < trees.len(),
    ensures
        size(trees[i].text()) <= size(tree::text_of(trees)),
    decreases trees.len(),
{
    size_join(tree::text_of(trees.drop_last()), trees.last().text());
    if i < trees.len() - 1 {
        size_of_part(trees.drop_last(), i);
    }
}

proof fn texts_join(a: Seq<Event>, b: Seq<Event>)
    ensures
        texts(a + b) == texts(a) + texts(b),
    decreases b.len(),
{
    if b.len() == 0 {
        assert(a + b =~= a);
        assert(texts(a) + texts(b) =~= texts(a));
    } else {
        assert((a + b).drop_last() =~= a + b.drop_last());
        texts_join(a, b.drop_last());
        assert(texts(a + b) =~= texts(a) + texts(b));
    }
}

/// A walk comes by the whole text of the tree.
pub proof fn walk_keeps_text(tree: Tree)
    ensures
        texts(walked(tree)) == tree.text(),
    decreases tree,
{
    match tree {
        Tree::Node(kind, children) => {
            let enter = seq![Event::EnterNode(kind.raw())];
            let leave = seq![Event::LeaveNode(kind.raw())];
            walks_keep_text(children);
            texts_join(enter + walked_of(children), leave);
            texts_join(enter, walked_of(children));
            assert(enter.drop_last() =~= Seq::<Event>::empty());
            assert(leave.drop_last() =~= Seq::<Event>::empty());
            assert(texts(Seq::<Event>::empty()) =~= Seq::<char>::empty());
            assert(texts(enter) =~= Seq::<char>::empty());
            assert(texts(leave) =~= Seq::<char>::empty());
            assert(texts(walked(tree)) =~= tree.text());
        },
        Tree::Token(kind, text) => {
            let enter = seq![Event::EnterToken(kind.raw(), text)];
            assert(walked(tree).drop_last() =~= enter);
            assert(enter.drop_last() =~= Seq::<Event>::empty());
            assert(texts(enter.drop_last()) =~= Seq::<char>::empty());
            assert(texts(enter) =~= text);
            assert(texts(walked(tree)) =~= text);
        },
    }
}

proof fn walks_keep_text(trees: Seq<Tree>)
    ensures
        texts(walked_of(trees)) == tree::text_of(trees),
    decreases trees,
{
    if trees.len() > 0 {
        walks_keep_text(trees.drop_last());
        walk_keeps_text(trees.last());
        texts_join(walked_of(trees.drop_last()), walked(trees.last()));
    }
}

/// Whether `events` begins with `start`.
pub open spec fn begins_with(events: Seq<Event>, start: Seq<Event>) -> bool {
    start.len() <= events.len() && events.take(start.len() as int) == start
}

/// The walk over the first of several trees comes first.
proof fn first_walk(trees: Seq<Tree>)
    requires
        trees.len() > 0,
    ensures
        walked_of(trees) == walked(trees[0]) + walked_of(trees.drop_first()),
    decreases trees.len(),
{
    if trees.len() == 1 {
        assert(trees.drop_last() =~= Seq::<Tree>::empty());
        assert(trees.drop_first() =~= Seq::<Tree>::empty());
        assert(walked_of(trees.drop_last()) =~= Seq::<Event>::empty());
        assert(walked_of(trees.drop_first()) =~= Seq::<Event>::empty());
        assert(walked_of(trees) =~= walked(trees[0]) + walked_of(trees.drop_first()));
    } else {
        first_walk(trees.drop_last());
        assert(trees.drop_last().drop_first() =~= trees.drop_first().drop_last());
        assert(walked_of(trees) =~= walked(trees[0]) + walked_of(trees.drop_first()));
    }
}

/// A walk begins by entering, and so with no step that leaves.
proof fn walk_enters(tree: Tree)
    ensures
        walked(tree).len() >= 2,
        tree is Node ==> walked(tree)[0] == Event::EnterNode(tree.kind().raw()),
        tree is Token ==> walked(tree)[0] == Event::EnterToken(tree.kind().raw(), tree.text()),
{
}

/// Two trees whose walks begin the same steps are the same tree.
proof fn same_start(a: Tree, b: Tree, events: Seq<Event>)
    requires
        begins_with(events, walked(a)),
        begins_with(events, walked(b)),
    ensures
        a == b,
    decreases a,
{
    walk_enters(a);
    walk_enters(b);
    assert(events.take(walked(a).len() as int)[0] == walked(a)[0]);
    assert(events.take(walked(b).len() as int)[0] == walked(b)[0]);
    syntax_kind::raw_is_injective(a.kind(), b.kind());
    if a is Node {
        let rest = events.skip(1);
        let leave = Event::LeaveNode(a.kind().raw());
        children_begin(a, events);
        children_begin(b, events);
        same_children(a->Node_1, b->Node_1, leave, rest);
    }
}

/// After the step into a node come the walks over its children, and the step out of it.
proof fn children_begin(tree: Tree, events: Seq<Event>)
    requires
        tree is Node,
        begins_with(events, walked(tree)),
    ensures
        events.len() > 0,
        begins_with(
            events.skip(1),
            walked_of(tree.children()).push(Event::LeaveNode(tree.kind().raw())),
        ),
{
    let inner = walked_of(tree.children()).push(Event::LeaveNode(tree.kind().raw()));
    let all = walked(tree);
    assert(all =~= seq![Event::EnterNode(tree.kind().raw())] + inner);
    assert(events.skip(1).take(inner.len() as int) =~= events.take(all.len() as int).skip(1));
    assert(all.skip(1) =~= inner);
}

proof fn same_children(a: Seq<Tree>, b: Seq<Tree>, leave: Event, events: Seq<Event>)
    requires
        leave is LeaveNode,
        begins_with(events, walked_of(a).push(leave)),
        begins_with(events, walked_of(b).push(leave)),
    ensures
        a == b,
    decreases a,
{
    child_begins(a, leave, events);
    child_begins(b, leave, events);
    if a.len() == 0 {
        if b.len() > 0 {
            walk_enters(b[0]);
            assert(events.take(walked(b[0]).len() as int)[0] == walked(b[0])[0]);
        }
        assert(a =~= b);
    } else if b.len() == 0 {
        walk_enters(a[0]);
        assert(events.take(walked(a[0]).len() as int)[0] == walked(a[0])[0]);
    } else {
        same_start(a[0], b[0], events);
        same_children(
            a.drop_first(),
            b.drop_first(),
            leave,
            events.skip(walked(a[0]).len() as int),
        );
        assert(a =~= seq![a[0]] + a.drop_first());
        assert(b =~= seq![b[0]] + b.drop_first());
    }
}

/// What the walks over the children of a node begin with: the walk over the first child, or the
/// step out of the node.
proof fn child_begins(trees: Seq<Tree>, leave: Event, events: Seq<Event>)
    requires
        begins_with(events, walked_of(trees).push(leave)),
    ensures
        trees.len() == 0 ==> events.len() > 0 && events[0] == leave,
        trees.len() > 0 ==> {
            &&& begins_with(events, walked(trees[0]))
            &&& begins_with(
                events.skip(walked(trees[0]).len() as int),
                walked_of(trees.drop_first()).push(leave),
            )
        },
{
    let all = walked_of(trees).push(leave);
    let taken = events.take(all.len() as int);
    if trees.len() == 0 {
        assert(taken[0] == leave);
    } else {
        first_walk(trees);
        let start = walked(trees[0]);
        let rest = walked_of(trees.drop_first()).push(leave);
        assert(all =~= start + rest);
        assert(events.take(start.len() as int) =~= taken.take(start.len() as int));
        assert(all.take(start.len() as int) =~= start);
        assert(events.skip(start.len() as int).take(rest.len() as int) =~= taken.skip(
            start.len() as int,
        ));
        assert(all.skip(start.len() as int) =~= rest);
    }
}

/// The walk over a tree tells which tree it is: what is built for `rowan` and read back is the
/// tree it was built from.
pub proof fn walk_determines_tree(a: Tree, b: Tree)
    requires
        walked(a) == walked(b),
    ensures
        a == b,
{
    let events = walked(a);
    assert(events.take(events.len() as int) =~= events);
    same_start(a, b, events);
}

/// `node` and what stands in it, as a tree of `rowan`. Its text has to fit in 32 bits.
pub fn to_green(node: &SyntaxNode) -> (r: GreenNode)
    requires
        size(node@.here().text()) <= u32::MAX,
    ensures
        walk(r) == walked(node@.here()),
{
    build(node.green())
}

fn build(tree: &SyntaxTree) -> (r: GreenNode)
    requires
        tree@ is Node,
        size(tree@.text()) <= u32::MAX,
    ensures
        walk(r) == walked(tree@),
    decreases tree,
{
    match tree {
        SyntaxTree::Node(kind, children, stamp) => {
            proof {
                SyntaxTree::view_of_node(*kind, *children, *stamp);
            }
            let ghost all = tree::views(children@);
            let mut parts: Vec<Green> = Vec::new();
            let mut i: usize = 0;
            assert(all.take(0) =~= Seq::<Tree>::empty());
            while i < children.len()
                invariant
                    tree == SyntaxTree::Node(*kind, *children, *stamp),
                    tree@ == Tree::Node(*kind, all),
                    all == tree::views(children@),
                    size(tree@.text()) <= u32::MAX,
                    i <= children.len(),
                    walks(parts@) == walked_of(all.take(i as int)),
                decreases children.len() - i,
            {
                let ghost so_far = parts@;
                proof {
                    size_of_part(all, i as int);
                    assert(all[i as int] == children@[i as int]@);
                    assert(all.take(i + 1).drop_last() =~= all.take(i as int));
                    assert(decreases_to!(tree => tree->Node_1));
                    assert(decreases_to!(tree->Node_1 => tree->Node_1@));
                    assert(decreases_to!(tree->Node_1@ => tree->Node_1@[i as int]));
                }
                match &children[i] {
                    SyntaxTree::Node(_, _, _) => parts.push(Green::Node(build(&children[i]))),
                    SyntaxTree::Token(kind, text) => {
                        parts.push(Green::Token(new_token(kind.to_raw(), text.as_str())));
                        assert(all[i as int] == Tree::Token(*kind, text@));
                    },
                }
                proof {
                    assert(parts@.drop_last() =~= so_far);
                    assert(all.take(i + 1).last() == all[i as int]);
                    assert(walks(parts@) == walks(so_far) + walked(all[i as int]));
                    assert(walked_of(all.take(i + 1)) == walked_of(all.take(i as int)) + walked(
                        all[i as int],
                    ));
                }
                i += 1;
            }
            proof {
                assert(all.take(i as int) =~= all);
                walks_keep_text(all);
            }
            new_node(kind.to_raw(), parts)
        },
        SyntaxTree::Token(_, _) => unreached(),
    }
}

/// The root of the tree that a tree of `rowan` stands for; `None` where the number of a kind in it
/// is not one of this library.
pub fn from_green(green: &GreenNode) -> (r: Option<SyntaxNode>)
    ensures
        r matches Some(node) ==> node@.is_root() && walked(node@.here()) == walk(*green),
        r is None ==> forall|tree: Tree| tree is Node ==> #[trigger] walked(tree) != walk(*green),
{
    let steps = preorder(green);
    let ghost all = walk(*green);
    assert(all.skip(0) =~= all);
    let read = read_tree(&steps, 0);
    match read {
        Some((tree, next)) => {
            if next == steps.len() && tree.is_node() {
                assert(all.subrange(0, next as int) =~= all);
                return Some(SyntaxNode::new_root(tree));
            }
            proof {
                assert forall|other: Tree| other is Node implies #[trigger] walked(other)
                    != all by {
                    if walked(other) == all {
                        assert(all.take(all.len() as int) =~= all);
                        assert(begins_with(all, walked(other)));
                        assert(all.take(next as int) =~= all.subrange(0, next as int));
                        same_start(tree@, other, all);
                    }
                }
            }
            None
        },
        None => {
            proof {
                assert forall|other: Tree| other is Node implies #[trigger] walked(other)
                    != all by {
                    assert(all.take(all.len() as int) =~= all);
                    assert(walked(other) == all ==> begins_with(all, walked(other)));
                }
            }
            None
        },
    }
}

/// `tree` is a node of the kind `kind`, and its first children are `children`. The rest of the walk
/// over it begins `events`.
spec fn node_from(tree: Tree, kind: SyntaxKind, children: Seq<Tree>, events: Seq<Event>) -> bool {
    &&& tree is Node
    &&& tree.kind() == kind
    &&& children.len() <= tree.children().len()
    &&& tree.children().take(children.len() as int) == children
    &&& begins_with(
        events,
        walked_of(tree.children().skip(children.len() as int)).push(Event::LeaveNode(kind.raw())),
    )
}

/// One child more of a node that is walked over.
proof fn one_more(
    tree: Tree,
    kind: SyntaxKind,
    children: Seq<Tree>,
    events: Seq<Event>,
    child: Tree,
)
    requires
        node_from(tree, kind, children, events),
        begins_with(events, walked(child)),
    ensures
        node_from(tree, kind, children.push(child), events.skip(walked(child).len() as int)),
{
    let n = children.len() as int;
    let left = tree.children().skip(n);
    child_begins(left, Event::LeaveNode(kind.raw()), events);
    walk_enters(child);
    assert(events.take(walked(child).len() as int)[0] == walked(child)[0]);
    assert(left.len() > 0);
    same_start(left[0], child, events);
    assert(tree.children().take(n + 1) =~= children.push(child));
    assert(left.drop_first() =~= tree.children().skip(n + 1));
}

/// Where a node does not end, and no child begins, no walk over a node goes on.
proof fn no_more(tree: Tree, kind: SyntaxKind, children: Seq<Tree>, events: Seq<Event>)
    requires
        events.len() > 0,
        events[0] != Event::LeaveNode(kind.raw()),
        events[0] is LeaveNode || forall|other: Tree|
            !begins_with(events, #[trigger] walked(other)),
    ensures
        !node_from(tree, kind, children, events),
{
    if node_from(tree, kind, children, events) {
        let left = tree.children().skip(children.len() as int);
        child_begins(left, Event::LeaveNode(kind.raw()), events);
        assert(left.len() > 0);
        walk_enters(left[0]);
        assert(events.take(walked(left[0]).len() as int)[0] == walked(left[0])[0]);
    }
}

/// The tree whose walk begins with step number `at`, and the number of the step after that walk;
/// `None` where no walk begins there.
fn read_tree(steps: &Vec<Step>, at: usize) -> (r: Option<(SyntaxTree, usize)>)
    requires
        at <= steps.len(),
    ensures
        r matches Some((tree, next)) ==> {
            &&& at < next <= steps.len()
            &&& events(steps@).subrange(at as int, next as int) == walked(tree@)
        },
        r is None ==> forall|tree: Tree|
            !begins_with(events(steps@).skip(at as int), #[trigger] walked(tree)),
    decreases steps.len() - at, 1nat,
{
    let ghost all = events(steps@);
    let ghost rest = all.skip(at as int);
    if at == steps.len() {
        proof {
            assert forall|tree: Tree| !begins_with(rest, #[trigger] walked(tree)) by {
                walk_enters(tree);
            }
        }
        return None;
    }
    assert(rest[0] == steps@[at as int]@);
    match &steps[at] {
        Step::EnterNode(raw) => {
            match SyntaxKind::from_raw(*raw) {
                Some(kind) => read_node(steps, at, kind),
                None => {
                    proof {
                        assert forall|tree: Tree| !begins_with(rest, #[trigger] walked(tree)) by {
                            walk_enters(tree);
                            if begins_with(rest, walked(tree)) {
                                assert(rest.take(walked(tree).len() as int)[0] == walked(tree)[0]);
                            }
                        }
                    }
                    None
                },
            }
        },
        Step::EnterToken(raw, text) => read_token(steps, at, *raw, text),
        Step::LeaveNode(_) | Step::LeaveToken(_, _) => {
            proof {
                assert forall|tree: Tree| !begins_with(rest, #[trigger] walked(tree)) by {
                    walk_enters(tree);
                    if begins_with(rest, walked(tree)) {
                        assert(rest.take(walked(tree).len() as int)[0] == walked(tree)[0]);
                    }
                }
            }
            None
        },
    }
}

/// The token that step number `at` enters.
fn read_token(steps: &Vec<Step>, at: usize, raw: u16, text: &String) -> (r: Option<
    (SyntaxTree, usize),
>)
    requires
        at < steps.len(),
        events(steps@)[at as int] == Event::EnterToken(raw, text@),
    ensures
        r matches Some((tree, next)) ==> {
            &&& at < next <= steps.len()
            &&& events(steps@).subrange(at as int, next as int) == walked(tree@)
        },
        r is None ==> forall|tree: Tree|
            !begins_with(events(steps@).skip(at as int), #[trigger] walked(tree)),
{
    let ghost all = events(steps@);
    let ghost rest = all.skip(at as int);
    if at + 1 < steps.len() {
        if let Step::LeaveToken(raw_after, text_after) = &steps[at + 1] {
            if let Some(kind) = SyntaxKind::from_raw(raw) {
                if *raw_after == raw && *text_after == *text {
                    let tree = SyntaxTree::Token(kind, text.clone());
                    proof {
                        assert(all[at + 1] == steps@[at + 1]@);
                        assert(all.subrange(at as int, at + 2) =~= walked(tree@));
                    }
                    return Some((tree, at + 2));
                }
            }
        }
    }
    proof {
        assert forall|tree: Tree| !begins_with(rest, #[trigger] walked(tree)) by {
            walk_enters(tree);
            if begins_with(rest, walked(tree)) {
                let taken = rest.take(walked(tree).len() as int);
                assert(taken[0] == walked(tree)[0]);
                assert(taken[0] == all[at as int]);
                assert(tree is Token);
                assert(taken[1] == walked(tree)[1]);
                assert(taken[1] == all[at + 1]);
                assert(all[at + 1] == steps@[at + 1]@);
                assert(tree.kind().raw() == raw);
            }
        }
    }
    None
}

/// The node of the kind `kind` that step number `at` enters.
fn read_node(steps: &Vec<Step>, at: usize, kind: SyntaxKind) -> (r: Option<(SyntaxTree, usize)>)
    requires
        at < steps.len(),
        events(steps@)[at as int] == Event::EnterNode(kind.raw()),
    ensures
        r matches Some((tree, next)) ==> {
            &&& at < next <= steps.len()
            &&& events(steps@).subrange(at as int, next as int) == walked(tree@)
        },
        r is None ==> forall|tree: Tree|
            !begins_with(events(steps@).skip(at as int), #[trigger] walked(tree)),
    decreases steps.len() - at, 0nat,
{
    let ghost all = events(steps@);
    let ghost rest = all.skip(at as int);
    let leave = kind.to_raw();
    let mut children: Vec<SyntaxTree> = Vec::new();
    let mut i: usize = at + 1;
    proof {
        assert(all.subrange(at + 1, at + 1) =~= Seq::<Event>::empty());
        assert(tree::views(children@) =~= Seq::<Tree>::empty());
        assert forall|tree: Tree| begins_with(rest, #[trigger] walked(tree)) implies node_from(
            tree,
            kind,
            tree::views(children@),
            all.skip(i as int),
        ) by {
            walk_enters(tree);
            assert(rest.take(walked(tree).len() as int)[0] == walked(tree)[0]);
            syntax_kind::raw_is_injective(tree.kind(), kind);
            children_begin(tree, rest);
            assert(rest.skip(1) =~= all.skip(i as int));
            assert(tree.children().skip(0) =~= tree.children());
            assert(tree.children().take(0) =~= Seq::<Tree>::empty());
        }
    }
    while i < steps.len()
        invariant
            at < i <= steps.len(),
            all == events(steps@),
            rest == all.skip(at as int),
            leave == kind.raw(),
            all[at as int] == Event::EnterNode(leave),
            all.subrange(at + 1, i as int) == walked_of(tree::views(children@)),
            forall|tree: Tree|
                begins_with(rest, #[trigger] walked(tree)) ==> node_from(
                    tree,
                    kind,
                    tree::views(children@),
                    all.skip(i as int),
                ),
        decreases steps.len() - i,
    {
        let ghost so_far = tree::views(children@);
        let ghost here = all.skip(i as int);
        assert(here[0] == steps@[i as int]@);
        if let Step::LeaveNode(raw) = &steps[i] {
            if *raw == leave {
                proof {
                    assert(all.subrange(at as int, i + 1) =~= seq![all[at as int]] + all.subrange(
                        at + 1,
                        i as int,
                    ) + seq![all[i as int]]);
                }
                return Some((SyntaxTree::node(kind, children), i + 1));
            }
            proof {
                assert forall|tree: Tree| !begins_with(rest, #[trigger] walked(tree)) by {
                    no_more(tree, kind, so_far, here);
                }
            }
            return None;
        }
        match read_tree(steps, i) {
            Some((child, next)) => {
                proof {
                    let start = walked(child@);
                    assert(here.take(start.len() as int) =~= all.subrange(i as int, next as int));
                    assert forall|tree: Tree| begins_with(rest, #[trigger] walked(tree)) implies
                        node_from(tree, kind, so_far.push(child@), all.skip(next as int)) by {
                        one_more(tree, kind, so_far, here, child@);
                        assert(here.skip(start.len() as int) =~= all.skip(next as int));
                    }
                    assert(all.subrange(at + 1, next as int) =~= all.subrange(at + 1, i as int)
                        + all.subrange(i as int, next as int));
                    assert(so_far.push(child@).drop_last() =~= so_far);
                }
                children.push(child);
                assert(tree::views(children@) =~= so_far.push(child@));
                i = next;
            },
            None => {
                proof {
                    assert forall|tree: Tree| !begins_with(rest, #[trigger] walked(tree)) by {
                        no_more(tree, kind, so_far, here);
                    }
                }
                return None;
            },
        }
    }
    proof {
        assert forall|tree: Tree| !begins_with(rest, #[trigger] walked(tree)) by {
            if begins_with(rest, walked(tree)) {
                assert(node_from(tree, kind, tree::views(children@), all.skip(i as int)));
            }
        }
    }
    None
}

} // verus!
