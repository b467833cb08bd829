//! How a prefix is split off a path and off a use tree, told by the kinds of the nodes around it.
use vstd::prelude::*;

use crate::algo;
use crate::ast;
use crate::ast::{AstNode, Path, PathSegment, Rename, UseTree, UseTreeList};
use crate::edit_laws;
use crate::group_laws;
use crate::make;
use crate::placing_laws;
use crate::stamp::Marks;
use crate::syntax_kind::SyntaxKind;
use crate::syntax_node;
use crate::syntax_node::Place;
use crate::tree;
use crate::tree::Tree;

verus! {

/// The place `k` steps outwards.
pub open spec fn outside(place: Place, k: int) -> Place {
    Place { tree: place.tree, path: place.path.take(place.path.len() - k) }
}

/// Exactly `n` longer paths are made with the path `path`, each with the one before it.
pub open spec fn qualifies(path: Place, n: int) -> bool {
    &&& 0 <= n <= path.path.len()
    &&& forall|k: int|
        0 <= k <= n ==> (#[trigger] outside(path, k)).kind() == SyntaxKind::PATH
    &&& n < path.path.len() ==> outside(path, n + 1).kind() != SyntaxKind::PATH
}

/// A path that is made of a path, `::` and a segment.
pub open spec fn is_qualified(path: Tree) -> bool {
    let children = path.children();
    &&& path is Node
    &&& path.kind() == SyntaxKind::PATH
    &&& children.len() == 3
    &&& children[1] == Tree::Token(SyntaxKind::COLON2, seq![':', ':'])
    &&& children[2] is Node
    &&& children[2].kind() == SyntaxKind::PATH_SEGMENT
}

/// Each of the `n` longer paths that `path` is a prefix of is made of a path, `::` and a segment.
pub open spec fn parsed(path: Place, n: int) -> bool {
    forall|k: int|
        1 <= k <= n ==> {
            &&& is_qualified((#[trigger] outside(path, k)).here())
            &&& path.path[path.path.len() - k] == 0
        }
}

/// Something that could not be parsed is a child of `tree`.
pub open spec fn has_error(tree: Tree) -> bool {
    exists|i: int|
        0 <= i < tree.children().len() && (#[trigger] tree.children()[i]) is Node
            && tree.children()[i].kind() == SyntaxKind::ERROR
}

/// The segments of a path, first to last.
pub open spec fn segments(path: Tree) -> Seq<Tree>
    decreases path,
{
    match path {
        Tree::Node(_, children) => if children.len() == 3 {
            segments(children[0]).push(children[2])
        } else if children.len() == 1 {
            seq![children[0]]
        } else {
            Seq::empty()
        },
        Tree::Token(_, _) => Seq::empty(),
    }
}

/// The segments of the `n` longer paths that `path` is a prefix of, but for those of `path`.
spec fn more_segments(path: Place, n: int) -> Seq<Tree> {
    Seq::new(n as nat, |k: int| outside(path, k + 1).children()[2])
}

/// The next longer path.
proof fn one_longer(path: Place, n: int)
    requires
        path.is_node(),
        qualifies(path, n),
        parsed(path, n),
        n > 0,
    ensures
        ({
            let longer = outside(path, 1);
            &&& Path::above(path) == Some(longer)
            &&& longer.is_node()
            &&& qualifies(longer, n - 1)
            &&& parsed(longer, n - 1)
            &&& outside(longer, n - 1) == outside(path, n)
            &&& is_qualified(longer.here())
            &&& longer.children()[0] == path.here()
            &&& UseTree::part(ast::child_of::<PathSegment>(longer)) == Some(longer.children()[2])
            &&& more_segments(path, n) == seq![longer.children()[2]] + more_segments(longer, n - 1)
        }),
{
    let longer = outside(path, 1);
    let len = path.path.len() as int;
    assert(longer.path =~= path.path.drop_last());
    assert(path.parent() == longer);
    assert(longer.kind() == SyntaxKind::PATH);
    assert(path.path =~= longer.path.push(path.path.last()));
    tree::path_step(path.tree, longer.path, path.path.last());
    assert(is_qualified(longer.here()));
    assert(outside(path, 0).path =~= path.path);
    assert forall|k: int| 0 <= k < len implies #[trigger] outside(longer, k) == outside(
        path,
        k + 1,
    ) by {
        assert(longer.path.take(len - 1 - k) =~= path.path.take(len - (k + 1)));
    }
    assert forall|k: int| 1 <= k <= n - 1 implies is_qualified(
        (#[trigger] outside(longer, k)).here(),
    ) && longer.path[longer.path.len() - k] == 0 by {
        assert(is_qualified(outside(path, k + 1).here()));
        assert(longer.path[len - 1 - k] == path.path[len - 1 - k]);
    }
    let children = longer.children();
    assert(children[0] == path.here());
    assert(outside(path, 0) == path);
    let wanted = ast::nodes_of::<PathSegment>();
    assert(!wanted(children[0]));
    assert(!wanted(children[1]));
    assert(wanted(children[2]));
    tree::first_is(children, 0, wanted, 2);
    algo::child_fits(longer, 2);
    assert(more_segments(path, n) =~= seq![children[2]] + more_segments(longer, n - 1));
}

proof fn extended_by(path: Place, n: int, start: Tree)
    requires
        path.is_node(),
        qualifies(path, n),
        parsed(path, n),
        start is Node,
        start.kind() == SyntaxKind::PATH,
    ensures
        UseTree::extended(path, start) matches Some(long) && long is Node && long.kind()
            == SyntaxKind::PATH && segments(long) == segments(start) + more_segments(path, n),
        segments(outside(path, n).here()) == segments(path.here()) + more_segments(path, n),
    decreases n,
{
    assert(outside(path, 0).path =~= path.path);
    assert(outside(path, 0) == path);
    if n == 0 {
        if path.path.len() > 0 {
            assert(outside(path, 1).path =~= path.path.drop_last());
            assert(path.parent() == outside(path, 1));
        }
        assert(more_segments(path, n) =~= Seq::<Tree>::empty());
        assert(segments(start) + more_segments(path, n) =~= segments(start));
        assert(segments(path.here()) + more_segments(path, n) =~= segments(path.here()));
    } else {
        let longer = outside(path, 1);
        one_longer(path, n);
        let segment = longer.children()[2];
        let next = make::long_path(start, segment);
        extended_by(longer, n - 1, next);
        assert(segments(next) == segments(next.children()[0]).push(segment));
        assert(segments(longer.here()) == segments(path.here()).push(segment));
        assert(segments(next) + more_segments(longer, n - 1) =~= segments(start) + more_segments(
            path,
            n,
        ));
        assert(segments(longer.here()) + more_segments(longer, n - 1) =~= segments(path.here())
            + more_segments(path, n));
    }
}

proof fn unspaced_path(path: Place, n: int)
    requires
        path.is_node(),
        qualifies(path, n),
        parsed(path, n),
    ensures
        edit_laws::unspaced(path),
        edit_laws::whole_path(path) == outside(path, n),
    decreases n,
{
    assert(outside(path, 0).path =~= path.path);
    if n == 0 {
        if path.path.len() > 0 {
            assert(outside(path, 1).path =~= path.path.drop_last());
            assert(path.parent() == outside(path, 1));
        }
    } else {
        let longer = outside(path, 1);
        one_longer(path, n);
        unspaced_path(longer, n - 1);
        reveal_strlit("::");
        assert("::"@ =~= seq![':', ':']);
        assert(make::fixed(SyntaxKind::COLON2) == Tree::Token(SyntaxKind::COLON2, seq![':', ':']));
    }
}

/// Whatever a path begins with, and however many segments it has: a prefix of it leaves the rest,
/// if the segment that follows the prefix could be parsed. The segments of the prefix and of the
/// rest are those of the whole path, and so are their texts, joined by `::`.
pub proof fn prefix_leaves_the_rest(prefix: Place, n: int)
    requires
        prefix.is_node(),
        n > 0,
        qualifies(prefix, n),
        parsed(prefix, n),
        !has_error(outside(prefix, 1).children()[2]),
    ensures
        ({
            let whole = outside(prefix, n).here();
            &&& UseTree::suffix(prefix) matches Some(rest)
            &&& rest is Node
            &&& rest.kind() == SyntaxKind::PATH
            &&& segments(rest).len() == n
            &&& segments(whole) == segments(prefix.here()) + segments(rest)
            &&& whole.text() == prefix.here().text() + seq![':', ':'] + rest.text()
        }),
{
    let longer = outside(prefix, 1);
    one_longer(prefix, n);
    assert(outside(prefix, 0).path =~= prefix.path);
    let segment = longer.children()[2];
    assert(!algo::holds_error(segment));
    let start = make::short_path(segment);
    extended_by(longer, n - 1, start);
    assert(segments(longer.here()) == segments(prefix.here()).push(segment));
    assert(segments(start) =~= seq![segment]);
    let rest = UseTree::suffix(prefix)->0;
    assert(segments(outside(prefix, n).here()) =~= segments(prefix.here()) + segments(rest));
    unspaced_path(prefix, n);
    edit_laws::path_is_split(prefix);
    reveal_strlit("::");
    assert("::"@ =~= seq![':', ':']);
}

/// A path that no longer path is made with has no rest.
pub proof fn whole_path_leaves_nothing(path: Place)
    requires
        path.path.len() == 0 || outside(path, 1).kind() != SyntaxKind::PATH,
    ensures
        UseTree::suffix(path) is None,
{
    if path.path.len() > 0 {
        assert(outside(path, 1).path =~= path.path.drop_last());
        assert(path.parent() == outside(path, 1));
    }
}

/// Where the segment that follows a prefix could not be parsed, there is no rest.
pub proof fn errors_leave_nothing(prefix: Place, n: int)
    requires
        prefix.is_node(),
        n > 0,
        qualifies(prefix, n),
        parsed(prefix, n),
        has_error(outside(prefix, 1).children()[2]),
    ensures
        UseTree::suffix(prefix) is None,
{
    one_longer(prefix, n);
    assert(algo::holds_error(outside(prefix, 1).children()[2]));
}

/// The path of `parts`, joined by `::`.
pub open spec fn joined(parts: Seq<Tree>) -> Tree
    decreases parts.len(),
{
    if parts.len() <= 1 {
        Tree::Node(SyntaxKind::PATH, parts)
    } else {
        Tree::Node(
            SyntaxKind::PATH,
            seq![
                joined(parts.drop_last()),
                Tree::Token(SyntaxKind::COLON2, seq![':', ':']),
                parts.last(),
            ],
        )
    }
}

/// `segment` is the segment of `path`.
pub open spec fn has_segment(path: Tree, segment: Tree) -> bool {
    exists|i: int|
        #[trigger] placing_laws::first_node(path.children(), SyntaxKind::PATH_SEGMENT, i) && segment
            == path.children()[i]
}

/// `parts` are the segments of the longer paths that `path` is a prefix of, shortest path first.
pub open spec fn has_segments(path: Place, parts: Seq<Tree>) -> bool {
    forall|k: int|
        0 <= k < parts.len() ==> has_segment(outside(path, k + 1).here(), #[trigger] parts[k])
}

/// One step outwards.
proof fn steps_outwards(path: Place, n: int)
    requires
        qualifies(path, n),
    ensures
        n > 0 ==> Path::above(path) == Some(outside(path, 1)) && qualifies(outside(path, 1), n - 1),
        n == 0 ==> Path::above(path) is None,
        forall|k: int|
            0 <= k < path.path.len() ==> #[trigger] outside(outside(path, 1), k) == outside(
                path,
                k + 1,
            ),
{
    let longer = outside(path, 1);
    let len = path.path.len() as int;
    if len > 0 {
        assert(longer.path =~= path.path.drop_last());
        assert(path.parent() == longer);
        assert forall|k: int| 0 <= k < len implies #[trigger] outside(longer, k) == outside(
            path,
            k + 1,
        ) by {
            assert(longer.path.take(len - 1 - k) =~= path.path.take(len - (k + 1)));
        }
    }
}

proof fn extended_by_parts(path: Place, parts: Seq<Tree>, so_far: Seq<Tree>)
    requires
        qualifies(path, parts.len() as int),
        has_segments(path, parts),
        so_far.len() > 0,
    ensures
        UseTree::extended(path, joined(so_far)) == Some(joined(so_far + parts)),
    decreases parts.len(),
{
    let n = parts.len() as int;
    steps_outwards(path, n);
    if n == 0 {
        assert(so_far + parts =~= so_far);
    } else {
        let longer = outside(path, 1);
        let rest = parts.skip(1);
        assert(has_segment(longer.here(), parts[0]));
        let i = choose|i: int|
            #[trigger] placing_laws::first_node(longer.children(), SyntaxKind::PATH_SEGMENT, i)
                && parts[0] == longer.children()[i];
        group_laws::first_of_kind::<PathSegment>(longer.children(), SyntaxKind::PATH_SEGMENT);
        algo::child_fits(longer, i);
        assert forall|k: int| 0 <= k < rest.len() implies has_segment(
            outside(longer, k + 1).here(),
            #[trigger] rest[k],
        ) by {
            assert(rest[k] == parts[k + 1]);
            assert(outside(longer, k + 1) == outside(path, k + 1 + 1));
        }
        let more = so_far.push(parts[0]);
        extended_by_parts(longer, rest, more);
        assert(more + rest =~= so_far + parts);
        assert(more.drop_last() =~= so_far);
        reveal_strlit("::");
        assert("::"@ =~= seq![':', ':']);
        assert(make::long_path(joined(so_far), parts[0]) == joined(more));
    }
}

/// However a path is written: what follows a prefix of it are the segments of the longer paths that
/// are made with the prefix, joined by `::`, if the first of them could be parsed.
pub proof fn rest_is_made_of_segments(prefix: Place, parts: Seq<Tree>)
    requires
        parts.len() > 0,
        qualifies(prefix, parts.len() as int),
        has_segments(prefix, parts),
    ensures
        !has_error(parts[0]) ==> UseTree::suffix(prefix) == Some(joined(parts)),
        has_error(parts[0]) ==> UseTree::suffix(prefix) is None,
{
    let n = parts.len() as int;
    steps_outwards(prefix, n);
    let longer = outside(prefix, 1);
    assert(has_segment(longer.here(), parts[0]));
    let i = choose|i: int|
        #[trigger] placing_laws::first_node(longer.children(), SyntaxKind::PATH_SEGMENT, i)
            && parts[0] == longer.children()[i];
    group_laws::first_of_kind::<PathSegment>(longer.children(), SyntaxKind::PATH_SEGMENT);
    algo::child_fits(longer, i);
    assert(has_error(parts[0]) == algo::holds_error(parts[0]));
    let rest = parts.skip(1);
    assert forall|k: int| 0 <= k < rest.len() implies has_segment(
        outside(longer, k + 1).here(),
        #[trigger] rest[k],
    ) by {
        assert(rest[k] == parts[k + 1]);
        assert(outside(longer, k + 1) == outside(prefix, k + 1 + 1));
    }
    let first = seq![parts[0]];
    assert(make::short_path(parts[0]) == joined(first));
    extended_by_parts(longer, rest, first);
    assert(first + rest =~= parts);
}

proof fn extended_stops(path: Place, n: int, k: int, start: Tree)
    requires
        qualifies(path, n),
        1 <= k <= n,
        group_laws::no_node(outside(path, k).children(), SyntaxKind::PATH_SEGMENT),
    ensures
        UseTree::extended(path, start) is None,
    decreases k,
{
    steps_outwards(path, n);
    let longer = outside(path, 1);
    group_laws::first_of_kind::<PathSegment>(longer.children(), SyntaxKind::PATH_SEGMENT);
    if k > 1 {
        assert(outside(longer, k - 1) == outside(path, k - 1 + 1));
        if let Some(segment) = ast::child_of::<PathSegment>(longer) {
            extended_stops(longer, n - 1, k - 1, make::long_path(start, segment.here()));
        }
    }
}

/// Where one of the longer paths has no segment, there is no rest.
pub proof fn missing_segment_leaves_nothing(prefix: Place, n: int, k: int)
    requires
        qualifies(prefix, n),
        1 <= k <= n,
        group_laws::no_node(outside(prefix, k).children(), SyntaxKind::PATH_SEGMENT),
    ensures
        UseTree::suffix(prefix) is None,
{
    steps_outwards(prefix, n);
    let longer = outside(prefix, 1);
    group_laws::first_of_kind::<PathSegment>(longer.children(), SyntaxKind::PATH_SEGMENT);
    if k > 1 {
        assert(outside(longer, k - 1) == outside(prefix, k - 1 + 1));
        if let Some(segment) = ast::child_of::<PathSegment>(longer) {
            extended_stops(longer, n - 1, k - 1, make::short_path(segment.here()));
        }
    }
}

/// The text of the first node of the kind `kind` among `trees`, after `lead`; nothing where there
/// is none.
pub open spec fn text_of_node(trees: Seq<Tree>, kind: SyntaxKind, lead: Seq<char>) -> Seq<char>
    decreases trees.len(),
{
    if trees.len() == 0 {
        Seq::empty()
    } else if trees[0] is Node && trees[0].kind() == kind {
        lead + trees[0].text()
    } else {
        text_of_node(trees.skip(1), kind, lead)
    }
}

/// Whether a token of the kind `kind` is among `trees`.
pub open spec fn has_token(trees: Seq<Tree>, kind: SyntaxKind) -> bool {
    exists|i: int|
        0 <= i < trees.len() && (#[trigger] trees[i]) is Token && trees[i].kind() == kind
}

/// The text of an optional tree, after `lead`.
spec fn text_of_option(tree: Option<Tree>, lead: Seq<char>) -> Seq<char> {
    match tree {
        Some(tree) => lead + tree.text(),
        None => Seq::empty(),
    }
}

proof fn text_of_found(
    trees: Seq<Tree>,
    from: int,
    kind: SyntaxKind,
    wanted: spec_fn(Tree) -> bool,
    lead: Seq<char>,
)
    requires
        0 <= from <= trees.len(),
        forall|t: Tree| #[trigger] wanted(t) == (t is Node && t.kind() == kind),
    ensures
        text_of_node(trees.skip(from), kind, lead) == if tree::first(trees, from, wanted)
            < trees.len() {
            lead + trees[tree::first(trees, from, wanted)].text()
        } else {
            Seq::empty()
        },
    decreases trees.len() - from,
{
    let rest = trees.skip(from);
    if from < trees.len() {
        assert(rest[0] == trees[from]);
        assert(rest.skip(1) =~= trees.skip(from + 1));
        assert(wanted(trees[from]) == (trees[from] is Node && trees[from].kind() == kind));
        if !wanted(trees[from]) {
            text_of_found(trees, from + 1, kind, wanted, lead);
        }
    }
}

proof fn text_of_child<N: AstNode>(place: Place, kind: SyntaxKind, lead: Seq<char>)
    requires
        forall|k: SyntaxKind| #[trigger] N::accepts(k) == (k == kind),
    ensures
        text_of_node(place.children(), kind, lead) == text_of_option(
            UseTree::part(ast::child_of::<N>(place)),
            lead,
        ),
{
    let children = place.children();
    let wanted = ast::nodes_of::<N>();
    tree::first_bounds(children, 0, wanted);
    algo::child_fits(place, tree::first(children, 0, wanted));
    assert forall|t: Tree| #[trigger] wanted(t) == (t is Node && t.kind() == kind) by {
        assert(N::accepts(t.kind()) == (t.kind() == kind));
    }
    text_of_found(children, 0, kind, wanted, lead);
    assert(children.skip(0) =~= children);
}

proof fn text_of_single(tree: Tree)
    ensures
        tree::text_of(seq![tree]) == tree.text(),
{
    assert(seq![tree].drop_last() =~= Seq::<Tree>::empty());
    assert(tree::text_of(Seq::<Tree>::empty()) =~= Seq::<char>::empty());
    assert(tree::text_of(seq![tree]) =~= tree.text());
}

proof fn text_of_two(a: Tree, b: Tree)
    ensures
        tree::text_of(seq![a, b]) == a.text() + b.text(),
{
    assert(seq![a, b] =~= seq![a] + seq![b]);
    edit_laws::text_of_join(seq![a], seq![b]);
    text_of_single(a);
    text_of_single(b);
}

/// What a use tree reads as.
proof fn use_tree_text(path: Tree, list: Option<Tree>, alias: Option<Tree>, star: bool)
    ensures
        make::use_tree_of(path, list, alias, star).text() == path.text() + text_of_option(
            list,
            seq![':', ':'],
        ) + (if star {
            seq![':', ':', '*']
        } else {
            Seq::<char>::empty()
        }) + text_of_option(alias, seq![' ']),
{
    reveal_strlit("::");
    reveal_strlit("*");
    reveal_strlit(" ");
    let none = Seq::<char>::empty();
    let colons = make::fixed(SyntaxKind::COLON2);
    assert("::"@ =~= seq![':', ':']);
    assert(" "@ =~= seq![' ']);
    assert("*"@ =~= seq!['*']);
    let listed = match list {
        Some(list) => seq![path, colons, list],
        None => seq![path],
    };
    text_of_single(path);
    match list {
        Some(list) => {
            edit_laws::text_of_three(path, colons, list);
            assert(path.text() + seq![':', ':'] + list.text() =~= path.text() + (seq![':', ':']
                + list.text()));
        },
        None => {
            assert(path.text() + none =~= path.text());
        },
    }
    let listed_text = path.text() + text_of_option(list, seq![':', ':']);
    assert(tree::text_of(listed) == listed_text);
    let more = seq![colons, make::fixed(SyntaxKind::STAR)];
    text_of_two(colons, make::fixed(SyntaxKind::STAR));
    assert(seq![':', ':'] + seq!['*'] =~= seq![':', ':', '*']);
    edit_laws::text_of_join(listed, more);
    let starred = if star {
        listed + more
    } else {
        listed
    };
    let starred_text = listed_text + (if star {
        seq![':', ':', '*']
    } else {
        none
    });
    assert(listed_text + none =~= listed_text);
    assert(tree::text_of(starred) == starred_text);
    match alias {
        Some(alias) => {
            let named = seq![make::blank(" "@), alias];
            text_of_two(make::blank(" "@), alias);
            edit_laws::text_of_join(starred, named);
        },
        None => {
            assert(starred_text + none =~= starred_text);
        },
    }
}

/// Splitting off a prefix gives a use tree that reads as the prefix and, in curly brackets after
/// `::`, the rest of the path with all that followed it: the list, the star and the new name, as
/// far as they are there. The rest reads `self` where the prefix is the whole path.
pub proof fn split_reads_as_before(use_tree: Place, prefix: Place, whole: bool, rest: Tree)
    requires
        use_tree.is_node(),
        whole || UseTree::suffix(prefix) == Some(rest),
    ensures
        ({
            let split = UseTree::split(use_tree, prefix, whole);
            let children = use_tree.children();
            &&& split.path.len() == 0
            &&& split.tree is Node
            &&& split.kind() == SyntaxKind::USE_TREE
            &&& split.here().text() == prefix.here().text() + seq![':', ':', '{'] + (if whole {
                seq!['s', 'e', 'l', 'f']
            } else {
                rest.text()
            }) + text_of_node(children, SyntaxKind::USE_TREE_LIST, seq![':', ':']) + (if has_token(
                children,
                SyntaxKind::STAR,
            ) {
                seq![':', ':', '*']
            } else {
                Seq::<char>::empty()
            }) + text_of_node(children, SyntaxKind::RENAME, seq![' ']) + seq!['}']
        }),
{
    let children = use_tree.children();
    let list = UseTree::part(ast::child_of::<UseTreeList>(use_tree));
    let alias = UseTree::part(ast::child_of::<Rename>(use_tree));
    let star = ast::token_of(use_tree, SyntaxKind::STAR) is Some;
    text_of_child::<UseTreeList>(use_tree, SyntaxKind::USE_TREE_LIST, seq![':', ':']);
    text_of_child::<Rename>(use_tree, SyntaxKind::RENAME, seq![' ']);
    let stars = ast::tokens_of(SyntaxKind::STAR);
    tree::first_bounds(children, 0, stars);
    let at = tree::first(children, 0, stars);
    if star {
        assert(stars(children[at]));
        assert(has_token(children, SyntaxKind::STAR));
    }
    if has_token(children, SyntaxKind::STAR) {
        let k = choose|k: int|
            0 <= k < children.len() && (#[trigger] children[k]) is Token && children[k].kind()
                == SyntaxKind::STAR;
        assert(stars(children[k]));
    }
    let own = make::short_path(make::self_segment());
    let suffix = if whole {
        own
    } else {
        rest
    };
    text_of_single(make::self_segment());
    text_of_single(make::self_segment().children()[0]);
    text_of_single(make::fixed(SyntaxKind::SELF_KW));
    reveal_strlit("self");
    assert("self"@ =~= seq!['s', 'e', 'l', 'f']);
    let made = make::use_tree_of(suffix, list, alias, star);
    let nested = make::use_tree_list_of(made);
    use_tree_text(suffix, list, alias, star);
    use_tree_text(prefix.here(), Some(nested), None, false);
    edit_laws::text_of_three(
        make::fixed(SyntaxKind::L_CURLY),
        made,
        make::fixed(SyntaxKind::R_CURLY),
    );
    reveal_strlit("{");
    reveal_strlit("}");
    assert("{"@ =~= seq!['{']);
    assert("}"@ =~= seq!['}']);
    let split = UseTree::split(use_tree, prefix, whole);
    assert(split == Place::root(make::use_tree_of(prefix.here(), Some(nested), None, false)));
    let a = suffix.text() + text_of_option(list, seq![':', ':']) + (if star {
        seq![':', ':', '*']
    } else {
        Seq::<char>::empty()
    }) + text_of_option(alias, seq![' ']);
    assert(made.text() == a);
    assert(nested.text() == seq!['{'] + a + seq!['}']);
    assert(split.here().text() =~= prefix.here().text() + seq![':', ':', '{'] + a + seq!['}']);
    assert(split.here().text() =~= prefix.here().text() + seq![':', ':', '{'] + suffix.text()
        + text_of_option(list, seq![':', ':']) + (if star {
        seq![':', ':', '*']
    } else {
        Seq::<char>::empty()
    }) + text_of_option(alias, seq![' ']) + seq!['}']);
}

/// Without a rest, and where the prefix is not the whole path, the use tree stays as it is.
pub proof fn nothing_split_off(use_tree: Place, prefix: Place)
    requires
        UseTree::suffix(prefix) is None,
    ensures
        UseTree::split(use_tree, prefix, false) == use_tree,
{
}

/// A use tree with a list has no path that stands for the whole of it.
pub proof fn list_leaves_no_whole(
    use_tree: Place,
    i: int,
    marks: Marks,
    prefix: Place,
    other: Marks,
)
    requires
        use_tree.is_node(),
        0 <= i < use_tree.children().len(),
        use_tree.children()[i] is Node,
        use_tree.children()[i].kind() == SyntaxKind::USE_TREE_LIST,
    ensures
        !UseTree::is_whole(use_tree, marks, prefix, other),
{
    tree::first_bounds(use_tree.children(), 0, ast::nodes_of::<UseTreeList>());
    assert(ast::nodes_of::<UseTreeList>()(use_tree.children()[i]));
}

/// In a use tree without a list a prefix is the whole path if and only if it is the very node that
/// is the path of the use tree; looking like it is not enough.
pub proof fn whole_is_the_own_path(
    use_tree: Place,
    i: int,
    marks: Marks,
    prefix: Place,
    other: Marks,
)
    requires
        placing_laws::first_node(use_tree.children(), SyntaxKind::PATH, i),
        group_laws::no_node(use_tree.children(), SyntaxKind::USE_TREE_LIST),
    ensures
        UseTree::is_whole(use_tree, marks, prefix, other) <==> syntax_node::one_node(
            use_tree.child(i),
            marks,
            prefix,
            other,
        ),
{
    group_laws::first_of_kind::<Path>(use_tree.children(), SyntaxKind::PATH);
    group_laws::first_of_kind::<UseTreeList>(use_tree.children(), SyntaxKind::USE_TREE_LIST);
}

/// Without a path there is no whole one.
pub proof fn no_path_no_whole(use_tree: Place, marks: Marks, prefix: Place, other: Marks)
    requires
        group_laws::no_node(use_tree.children(), SyntaxKind::PATH),
    ensures
        !UseTree::is_whole(use_tree, marks, prefix, other),
{
    group_laws::first_of_kind::<Path>(use_tree.children(), SyntaxKind::PATH);
}

} // verus!
