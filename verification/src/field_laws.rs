//! Where a new field of a record expression goes and what comes with it, told by the kinds of the
//! children of the list.
use vstd::prelude::*;

use crate::algo;
use crate::algo::InsertPosition;
use crate::ast;
use crate::ast::{RecordExprField, RecordExprFieldList};
use crate::edit_laws;
use crate::indent;
use crate::make;
use crate::syntax_kind::SyntaxKind;
use crate::syntax_node::Place;
use crate::tree;
use crate::tree::Tree;

verus! {

/// A field of a record expression.
pub open spec fn is_field(tree: Tree) -> bool {
    tree is Node && tree.kind() == SyntaxKind::RECORD_EXPR_FIELD
}

/// The fields among trees.
pub open spec fn fields() -> spec_fn(Tree) -> bool {
    |tree: Tree| is_field(tree)
}

pub open spec fn is_comma(tree: Tree) -> bool {
    tree.kind() == SyntaxKind::COMMA
}

/// Between any two fields there is a comma.
pub open spec fn parted(children: Seq<Tree>) -> bool {
    forall|i: int, j: int|
        0 <= i < j < children.len() && is_field(#[trigger] children[i]) && is_field(
            #[trigger] children[j],
        ) ==> exists|k: int| i < k < j && is_comma(#[trigger] children[k])
}

/// Child number `i` is the first opening bracket.
pub open spec fn opens(children: Seq<Tree>, i: int) -> bool {
    &&& 0 <= i < children.len()
    &&& children[i] is Token
    &&& children[i].kind() == SyntaxKind::L_CURLY
    &&& forall|j: int|
        0 <= j < i ==> !((#[trigger] children[j]) is Token && children[j].kind()
            == SyntaxKind::L_CURLY)
}

/// Child number `i` is the last field.
pub open spec fn last_field(children: Seq<Tree>, i: int) -> bool {
    &&& 0 <= i < children.len()
    &&& is_field(children[i])
    &&& forall|j: int| i < j < children.len() ==> !is_field(#[trigger] children[j])
}

/// The number of the child before which a new field goes that comes after the field number `i`:
/// that after the next comma, or directly after the field where no comma follows.
pub open spec fn follows_field(children: Seq<Tree>, i: int, at: int, lead: bool) -> bool {
    &&& i < at <= children.len()
    &&& lead ==> at == i + 1 && forall|k: int|
        i <= k < children.len() ==> !is_comma(#[trigger] children[k])
    &&& !lead ==> is_comma(children[at - 1]) && forall|k: int|
        i <= k < at - 1 ==> !is_comma(#[trigger] children[k])
}

/// A new field goes before child number `at`, after a comma of its own where `lead`.
pub open spec fn goes_to(
    children: Seq<Tree>,
    position: InsertPosition<&RecordExprField>,
    at: int,
    lead: bool,
) -> bool {
    match position {
        InsertPosition::First => !lead && opens(children, at - 1),
        InsertPosition::Last => {
            ||| exists|i: int|
                #[trigger] last_field(children, i) && follows_field(children, i, at, lead)
            ||| !lead && opens(children, at - 1) && forall|i: int|
                0 <= i < children.len() ==> !is_field(#[trigger] children[i])
        },
        InsertPosition::Before(anchor) => !lead && at == anchor@.index(),
        InsertPosition::After(anchor) => follows_field(children, anchor@.index(), at, lead),
    }
}

/// What comes into the list with a field: whitespace before it, and commas.
pub open spec fn comes(space: Seq<char>, field: Tree, lead: bool, trail: bool) -> Seq<Tree> {
    let comma = seq![Tree::Token(SyntaxKind::COMMA, seq![','])];
    let none = Seq::<Tree>::empty();
    (if lead {
        comma
    } else {
        none
    }) + seq![Tree::Token(SyntaxKind::WHITESPACE, space), field] + (if trail {
        comma
    } else {
        none
    })
}

/// The position is relative to a field of the list, where it is relative to one.
pub open spec fn anchored(list: Place, position: InsertPosition<&RecordExprField>) -> bool {
    match position {
        InsertPosition::First | InsertPosition::Last => true,
        InsertPosition::Before(anchor) | InsertPosition::After(anchor) => {
            &&& anchor@.is_child_of(list)
            &&& anchor@.is_node()
            &&& is_field(anchor@.here())
        },
    }
}

/// Whether the text of the list has a line break in it.
pub open spec fn on_lines(list: Place) -> bool {
    list.here().text().contains('\n')
}

/// The whitespace before a new field: a space on one line; on several a line break, the indentation
/// of the line on which the list begins, and four spaces.
pub open spec fn space_before(list: Place) -> Seq<char> {
    if on_lines(list) {
        seq!['\n'] + indent::indent_at(list) + seq![' ', ' ', ' ', ' ']
    } else {
        seq![' ']
    }
}

/// A list that a new field has a place in gets the field with whitespace before it, a comma of its
/// own before that where it follows a field without one, and a comma after it, unless it comes last
/// on one line. All else stays.
pub proof fn field_comes_with_commas(
    list: Place,
    position: InsertPosition<&RecordExprField>,
    field: Tree,
    at: int,
    lead: bool,
)
    requires
        list.is_node(),
        anchored(list, position),
        goes_to(list.children(), position, at, lead),
    ensures
        ({
            let with = RecordExprFieldList::with_field(list, position, field);
            let trail = !(position is Last) || on_lines(list);
            &&& 0 <= at <= list.children().len()
            &&& with.is_node()
            &&& with.kind() == list.kind()
            &&& with.children() == list.children().take(at) + comes(
                space_before(list),
                field,
                lead,
                trail,
            ) + list.children().skip(at)
        }),
{
    let children = list.children();
    let with = RecordExprFieldList::with_field(list, position, field);
    let trail = !(position is Last) || on_lines(list);
    let new = comes(space_before(list), field, lead, trail);
    reveal_strlit(" ");
    reveal_strlit("\n");
    reveal_strlit("    ");
    reveal_strlit(",");
    assert(" "@ =~= seq![' ']);
    assert(","@ =~= seq![',']);
    let columns = indent::indent_at(list);
    let four = seq![' ', ' ', ' ', ' '];
    assert("\n"@ + columns + "    "@ =~= seq!['\n'] + columns + four);
    let comma = make::fixed(SyntaxKind::COMMA);
    let space = RecordExprFieldList::space(list);
    assert(comma == Tree::Token(SyntaxKind::COMMA, seq![',']));
    assert(space == Tree::Token(SyntaxKind::WHITESPACE, space_before(list)));
    let short = seq![space, field];
    let plain = if trail {
        short.push(comma)
    } else {
        short
    };
    if lead {
        assert(new =~= seq![comma] + plain);
    } else {
        assert(new =~= plain);
    }
    let wanted = ast::nodes_of::<RecordExprField>();
    let open = ast::tokens_of(SyntaxKind::L_CURLY);
    let commas = tree::of_kind(SyntaxKind::COMMA);
    assert forall|j: int| 0 <= j < children.len() implies wanted(#[trigger] children[j])
        == is_field(children[j]) by {}
    match position {
        InsertPosition::First => {
            tree::first_is(children, 0, open, at - 1);
        },
        InsertPosition::Last => {
            if exists|i: int|
                #[trigger] last_field(children, i) && follows_field(children, i, at, lead) {
                let i = choose|i: int|
                    #[trigger] last_field(children, i) && follows_field(children, i, at, lead);
                tree::last_is(children, children.len() as int, wanted, i);
                comma_after(children, i, at, lead);
            } else {
                tree::first_is(children, 0, open, at - 1);
                tree::last_is(children, children.len() as int, wanted, -1);
            }
        },
        InsertPosition::Before(anchor) => {
            algo::child_stands(anchor@, list);
        },
        InsertPosition::After(anchor) => {
            algo::child_stands(anchor@, list);
            comma_after(children, anchor@.index(), at, lead);
        },
    }
    algo::with_children_keeps(list, algo::inserted(children, at, new));
}

proof fn comma_after(children: Seq<Tree>, i: int, at: int, lead: bool)
    requires
        0 <= i < children.len(),
        follows_field(children, i, at, lead),
    ensures
        tree::first(children, i, tree::of_kind(SyntaxKind::COMMA)) == if lead {
            children.len() as int
        } else {
            at - 1
        },
{
    tree::first_is(
        children,
        i,
        tree::of_kind(SyntaxKind::COMMA),
        if lead {
            children.len() as int
        } else {
            at - 1
        },
    );
}

/// The list opens with a bracket, no field stands before it, and the fields are parted by commas.
pub open spec fn in_order(children: Seq<Tree>) -> bool {
    &&& parted(children)
    &&& exists|b: int|
        #[trigger] opens(children, b) && forall|i: int|
            0 <= i < b ==> !is_field(#[trigger] children[i])
}

/// A list in order has a place for a field at every position. All fields before the place come
/// before the new one in the order that the position names, and all others after it.
proof fn place_is_found(list: Place, position: InsertPosition<&RecordExprField>) -> (r: (
    int,
    bool,
))
    requires
        list.is_node(),
        anchored(list, position),
        in_order(list.children()),
    ensures
        goes_to(list.children(), position, r.0, r.1),
        0 <= r.0 <= list.children().len(),
        position is First ==> forall|i: int|
            0 <= i < r.0 ==> !is_field(#[trigger] list.children()[i]),
        position is Last ==> forall|i: int|
            r.0 <= i < list.children().len() ==> !is_field(#[trigger] list.children()[i]),
        position matches InsertPosition::Before(anchor) ==> r.0 == anchor@.index(),
        position matches InsertPosition::After(anchor) ==> anchor@.index() < r.0 && forall|i: int|
            anchor@.index() < i < r.0 ==> !is_field(#[trigger] list.children()[i]),
        // a comma or nothing parts the new field from those before it
        r.1 || (forall|i: int| 0 <= i < r.0 ==> !is_field(#[trigger] list.children()[i])) || (
        position is Before) || is_comma(list.children()[r.0 - 1]),
{
    let children = list.children();
    let b = choose|b: int|
        #[trigger] opens(children, b) && forall|i: int|
            0 <= i < b ==> !is_field(#[trigger] children[i]);
    let wanted = ast::nodes_of::<RecordExprField>();
    tree::last_bounds(children, children.len() as int, wanted);
    let last = tree::last(children, children.len() as int, wanted);
    assert forall|j: int| 0 <= j < children.len() implies wanted(#[trigger] children[j])
        == is_field(children[j]) by {}
    match position {
        InsertPosition::First => (b + 1, false),
        InsertPosition::Last => {
            if last >= 0 {
                assert(last_field(children, last));
                next_place(children, last)
            } else {
                (b + 1, false)
            }
        },
        InsertPosition::Before(anchor) => {
            algo::child_stands(anchor@, list);
            (anchor@.index(), false)
        },
        InsertPosition::After(anchor) => {
            algo::child_stands(anchor@, list);
            let (at, lead) = next_place(children, anchor@.index());
            (at, lead)
        },
    }
}

proof fn next_place(children: Seq<Tree>, i: int) -> (r: (int, bool))
    requires
        0 <= i < children.len(),
        is_field(children[i]),
        parted(children),
    ensures
        follows_field(children, i, r.0, r.1),
        forall|j: int| i < j < r.0 ==> !is_field(#[trigger] children[j]),
{
    let commas = tree::of_kind(SyntaxKind::COMMA);
    tree::first_bounds(children, i, commas);
    let comma = tree::first(children, i, commas);
    assert forall|k: int| i <= k < comma implies !is_comma(#[trigger] children[k]) by {
        assert(!commas(children[k]));
    }
    let (at, lead) = if comma < children.len() {
        (comma + 1, false)
    } else {
        (i + 1, true)
    };
    assert forall|j: int| i < j < at implies !is_field(#[trigger] children[j]) by {
        if is_field(children[j]) {
            let k = choose|k: int| i < k < j && is_comma(#[trigger] children[k]);
            assert(is_comma(children[k]));
        }
    }
    (at, lead)
}

/// One field comes in as number `f` of `new`, parted from the fields before and after it.
proof fn parted_with(children: Seq<Tree>, at: int, new: Seq<Tree>, f: int)
    requires
        parted(children),
        0 <= at <= children.len(),
        0 <= f < new.len(),
        forall|k: int| 0 <= k < new.len() && k != f ==> !is_field(#[trigger] new[k]),
        f > 0 && is_comma(new[0]) || forall|i: int|
            0 <= i < at && is_field(#[trigger] children[i]) ==> exists|k: int|
                i < k < at && is_comma(#[trigger] children[k]),
        is_comma(new.last()) && f < new.len() - 1 || forall|j: int|
            at <= j < children.len() ==> !is_field(#[trigger] children[j]),
    ensures
        parted(children.take(at) + new + children.skip(at)),
{
    let all = children.take(at) + new + children.skip(at);
    let m = new.len() as int;
    assert forall|i: int, j: int|
        0 <= i < j < all.len() && is_field(#[trigger] all[i]) && is_field(
            #[trigger] all[j],
        ) implies exists|k: int| i < k < j && is_comma(#[trigger] all[k]) by {
        if at <= i < at + m {
            assert(all[i] == new[i - at]);
        }
        if at <= j < at + m {
            assert(all[j] == new[j - at]);
        }
        if j == at + f {
            assert(all[i] == children[i]);
            if f > 0 && is_comma(new[0]) {
                assert(is_comma(all[at]));
            } else {
                let k = choose|k: int| i < k < at && is_comma(#[trigger] children[k]);
                assert(is_comma(all[k]));
            }
        } else if i == at + f {
            assert(all[j] == children[j - m]);
            assert(all[at + m - 1] == new.last());
            assert(is_comma(all[at + m - 1]));
        } else {
            let a = if i < at {
                i
            } else {
                i - m
            };
            let b = if j < at {
                j
            } else {
                j - m
            };
            assert(all[i] == children[a]);
            assert(all[j] == children[b]);
            let k = choose|k: int| a < k < b && is_comma(#[trigger] children[k]);
            if k < at {
                assert(is_comma(all[k]));
            } else {
                assert(all[k + m] == children[k]);
                assert(is_comma(all[k + m]));
            }
        }
    }
}

/// In a list in order the fields are parted by commas with the new one among them, too.
pub proof fn fields_stay_parted(
    list: Place,
    position: InsertPosition<&RecordExprField>,
    field: Tree,
)
    requires
        list.is_node(),
        anchored(list, position),
        in_order(list.children()),
        is_field(field),
    ensures
        parted(RecordExprFieldList::with_field(list, position, field).children()),
{
    let children = list.children();
    let (at, lead) = place_is_found(list, position);
    field_comes_with_commas(list, position, field, at, lead);
    let trail = !(position is Last) || on_lines(list);
    let new = comes(space_before(list), field, lead, trail);
    let f = if lead {
        2int
    } else {
        1int
    };
    if !lead {
        assert forall|i: int| 0 <= i < at && is_field(#[trigger] children[i]) implies exists|
            k: int,
        | i < k < at && is_comma(#[trigger] children[k]) by {
            if let InsertPosition::Before(anchor) = position {
                algo::child_stands(anchor@, list);
                assert(is_field(children[at]));
            } else {
                assert(is_comma(children[at - 1]));
            }
        }
    }
    parted_with(children, at, new, f);
}

/// The fields of a list into which one field comes as number `f` of `new`.
proof fn fields_with(children: Seq<Tree>, at: int, new: Seq<Tree>, f: int)
    requires
        0 <= at <= children.len(),
        0 <= f < new.len(),
        is_field(new[f]),
        forall|k: int| 0 <= k < new.len() && k != f ==> !is_field(#[trigger] new[k]),
    ensures
        edit_laws::those(children.take(at) + new + children.skip(at), fields())
            == edit_laws::those(children.take(at), fields()) + seq![new[f]] + edit_laws::those(
            children.skip(at),
            fields(),
        ),
        edit_laws::those(children, fields()) == edit_laws::those(children.take(at), fields())
            + edit_laws::those(children.skip(at), fields()),
{
    let none = Seq::<Tree>::empty();
    let a = children.take(at);
    let c = children.skip(at);
    edit_laws::those_of_three(a, new, c, fields());
    let (first, rest) = (new.take(f), new.skip(f + 1));
    assert(new =~= first + seq![new[f]] + rest);
    edit_laws::those_of_three(first, seq![new[f]], rest, fields());
    assert forall|k: int| 0 <= k < rest.len() implies !fields()(#[trigger] rest[k]) by {
        assert(rest[k] == new[f + 1 + k]);
    }
    edit_laws::those_of_none(first, fields());
    edit_laws::those_of_none(rest, fields());
    edit_laws::those_of_one(new[f], fields());
    assert(none + seq![new[f]] + none =~= seq![new[f]]);
    assert(children =~= a + none + c);
    edit_laws::those_of_three(a, none, c, fields());
    edit_laws::those_of_none(none, fields());
    let (ka, kc) = (edit_laws::those(a, fields()), edit_laws::those(c, fields()));
    assert(ka + none + kc =~= ka + kc);
}

/// The fields of children around one that is a field.
proof fn fields_around(children: Seq<Tree>, i: int)
    requires
        0 <= i < children.len(),
        is_field(children[i]),
    ensures
        edit_laws::those(children, fields()) == edit_laws::those(children.take(i), fields())
            + seq![children[i]] + edit_laws::those(children.skip(i + 1), fields()),
{
    assert(children =~= children.take(i) + seq![children[i]] + children.skip(i + 1));
    edit_laws::those_of_three(
        children.take(i),
        seq![children[i]],
        children.skip(i + 1),
        fields(),
    );
    edit_laws::those_of_one(children[i], fields());
}

/// In a list in order the new field gets the place among the fields that the position names: it
/// comes first, last, directly before the anchor or directly after it. All other fields stay, in
/// order.
pub proof fn field_gets_its_place(
    list: Place,
    position: InsertPosition<&RecordExprField>,
    field: Tree,
)
    requires
        list.is_node(),
        anchored(list, position),
        in_order(list.children()),
        is_field(field),
    ensures
        ({
            let children = list.children();
            let before = edit_laws::those(children, fields());
            let with = RecordExprFieldList::with_field(list, position, field);
            let after = edit_laws::those(with.children(), fields());
            match position {
                InsertPosition::First => after == seq![field] + before,
                InsertPosition::Last => after == before.push(field),
                InsertPosition::Before(anchor) => after == edit_laws::those(
                    children.take(anchor@.index()),
                    fields(),
                ) + seq![field, anchor@.here()] + edit_laws::those(
                    children.skip(anchor@.index() + 1),
                    fields(),
                ),
                InsertPosition::After(anchor) => after == edit_laws::those(
                    children.take(anchor@.index()),
                    fields(),
                ) + seq![anchor@.here(), field] + edit_laws::those(
                    children.skip(anchor@.index() + 1),
                    fields(),
                ),
            }
        }),
{
    let children = list.children();
    let (at, lead) = place_is_found(list, position);
    field_comes_with_commas(list, position, field, at, lead);
    let trail = !(position is Last) || on_lines(list);
    let new = comes(space_before(list), field, lead, trail);
    let f = if lead {
        2int
    } else {
        1int
    };
    let a = children.take(at);
    let c = children.skip(at);
    assert(new[f] == field);
    fields_with(children, at, new, f);
    let before = edit_laws::those(children, fields());
    let (ka, kc) = (edit_laws::those(a, fields()), edit_laws::those(c, fields()));
    match position {
        InsertPosition::First => {
            assert forall|i: int| 0 <= i < a.len() implies !fields()(#[trigger] a[i]) by {
                assert(!is_field(children[i]));
            }
            edit_laws::those_of_none(a, fields());
            assert(ka + seq![field] + kc =~= seq![field] + before);
        },
        InsertPosition::Last => {
            assert forall|i: int| 0 <= i < c.len() implies !fields()(#[trigger] c[i]) by {
                assert(!is_field(children[at + i]));
            }
            edit_laws::those_of_none(c, fields());
            assert(ka + seq![field] + kc =~= before.push(field));
        },
        InsertPosition::Before(anchor) => {
            algo::child_stands(anchor@, list);
            fields_around(c, 0);
            assert(c.take(0) =~= Seq::<Tree>::empty());
            edit_laws::those_of_none(c.take(0), fields());
            assert(c.skip(1) =~= children.skip(at + 1));
            let kr = edit_laws::those(children.skip(at + 1), fields());
            assert(ka + seq![field] + kc =~= ka + seq![field, anchor@.here()] + kr);
        },
        InsertPosition::After(anchor) => {
            algo::child_stands(anchor@, list);
            let i = anchor@.index();
            let gap = a.skip(i + 1);
            assert forall|j: int| 0 <= j < gap.len() implies !fields()(#[trigger] gap[j]) by {
                assert(!is_field(children[i + 1 + j]));
            }
            fields_around(a, i);
            edit_laws::those_of_none(gap, fields());
            assert(a.take(i) =~= children.take(i));
            let rest = children.skip(i + 1);
            let none = Seq::<Tree>::empty();
            assert(rest =~= none + gap + c);
            edit_laws::those_of_three(none, gap, c, fields());
            edit_laws::those_of_none(none, fields());
            assert(none + none + kc =~= kc);
            let kh = edit_laws::those(children.take(i), fields());
            assert(ka + seq![field] + kc =~= kh + seq![anchor@.here(), field] + kc);
        },
    }
}

} // verus!
