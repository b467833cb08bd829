//! Edits of pieces of Rust syntax. Trees do not change: every edit gives a fresh tree.
use std::ops::RangeInclusive;
use vstd::pervasive::unreached;
use vstd::prelude::*;
use vstd::string::StringExecFns;

use crate::algo;
use crate::algo::InsertPosition;
use crate::ast;
use crate::ast::{
    AstNode, AttrsOwner, BinExpr, GenericArgList, MatchArm, MatchArmList, Pat, Path, PathSegment,
    RecordExprField, RecordExprFieldList, Rename, UseTree, UseTreeList,
};
use crate::buffer;
use crate::indent;
use crate::indent::IndentLevel;
use crate::make;
use crate::stamp::Marks;
use crate::syntax_kind::SyntaxKind;
use crate::syntax_node;
use crate::syntax_node::{NodeOrToken, Place, SyntaxElement, SyntaxNode};
use crate::tree;
use crate::tree::Tree;

verus! {

/// Edits that every typed node has.
pub trait AstNodeEdit: AstNode + Clone {
    /// The node with the elements `to_insert` inserted among its children.
    #[must_use]
    fn insert_children(
        &self,
        position: InsertPosition<SyntaxElement>,
        to_insert: Vec<SyntaxElement>,
    ) -> (r: Self)
        requires
            position.fits(self@),
        ensures
            r@ == self@.with_children(
                algo::inserted(
                    self@.children(),
                    position.index(self@),
                    syntax_node::parts(to_insert@),
                ),
            ),
            syntax_node::marks_edited(
                self@,
                self.marks(),
                r.marks(),
                algo::inserted(
                    self.marks().at(self@.path).children(),
                    position.index(self@),
                    syntax_node::part_marks(to_insert@),
                ),
            ),
    {
        let syntax = algo::insert_children(self.syntax(), position, to_insert);
        proof {
            algo::with_children_keeps(
                self@,
                algo::inserted(
                    self@.children(),
                    position.index(self@),
                    syntax_node::parts(to_insert@),
                ),
            );
        }
        match Self::cast(syntax) {
            Some(node) => node,
            None => unreached(),
        }
    }

    /// The node with the children in `to_replace` exchanged for the elements `to_insert`.
    #[must_use]
    fn replace_children(
        &self,
        to_replace: RangeInclusive<SyntaxElement>,
        to_insert: Vec<SyntaxElement>,
    ) -> (r: Self)
        requires
            algo::spans(to_replace, self@),
        ensures
            r@ == self@.with_children(
                algo::replaced(
                    self@.children(),
                    to_replace@.start@.index(),
                    to_replace@.end@.index(),
                    syntax_node::parts(to_insert@),
                ),
            ),
            syntax_node::marks_edited(
                self@,
                self.marks(),
                r.marks(),
                algo::replaced(
                    self.marks().at(self@.path).children(),
                    to_replace@.start@.index(),
                    to_replace@.end@.index(),
                    syntax_node::part_marks(to_insert@),
                ),
            ),
    {
        let syntax = algo::replace_children(self.syntax(), to_replace, to_insert);
        proof {
            algo::with_children_keeps(
                self@,
                algo::replaced(
                    self@.children(),
                    to_replace@.start@.index(),
                    to_replace@.end@.index(),
                    syntax_node::parts(to_insert@),
                ),
            );
        }
        match Self::cast(syntax) {
            Some(node) => node,
            None => unreached(),
        }
    }

    fn indent_level(&self) -> (r: IndentLevel)
        ensures
            r.0 == indent::level_at(self@),
    {
        IndentLevel::from_node(self.syntax())
    }

    /// The node as a tree of its own, its lines but the first moved to the right.
    #[must_use]
    fn indent(&self, level: IndentLevel) -> (r: Self)
        ensures
            r@ == Place::root(indent::shifted(self@.here(), level.columns(), true)),
            indent::marks_moved(self@.here(), self.marks().at(self@.path), r.marks()),
    {
        let syntax = level.increase_indent(self.syntax().clone());
        proof {
            indent::shifted_node(self@.kind(), self@.children(), level.columns(), true);
        }
        match Self::cast(syntax) {
            Some(node) => node,
            None => unreached(),
        }
    }

    /// The node as a tree of its own, its lines but the first moved to the left.
    #[must_use]
    fn dedent(&self, level: IndentLevel) -> (r: Self)
        ensures
            r@ == Place::root(indent::shifted(self@.here(), level.columns(), false)),
            indent::marks_moved(self@.here(), self.marks().at(self@.path), r.marks()),
    {
        let syntax = level.decrease_indent(self.syntax().clone());
        proof {
            indent::shifted_node(self@.kind(), self@.children(), level.columns(), false);
        }
        match Self::cast(syntax) {
            Some(node) => node,
            None => unreached(),
        }
    }

    /// The node as a tree of its own, its lines but the first moved to the left by its own
    /// indentation.
    #[must_use]
    fn reset_indent(&self) -> (r: Self)
        ensures
            r@ == Place::root(
                indent::shifted(self@.here(), indent::level_at(self@) * 4, false),
            ),
            indent::marks_moved(self@.here(), self.marks().at(self@.path), r.marks()),
    {
        let level = IndentLevel::from_node(self.syntax());
        self.dedent(level)
    }
}

impl<N: AstNode + Clone> AstNodeEdit for N {

}

/// The marks of the part of the tree at a node.
pub open spec fn marks_at<N: AstNode>(node: N) -> Marks {
    node.marks().at(node@.path)
}

/// `after` is `before` in a tree in which its children have the marks `children`, and all parts
/// elsewhere keep their marks.
pub open spec fn marks_become<N: AstNode>(before: N, after: N, children: Seq<Marks>) -> bool {
    syntax_node::marks_edited(before@, before.marks(), after.marks(), children)
}

/// An edit after an edit of the same node.
proof fn marks_become_twice<N: AstNode>(first: N, second: N, third: N, children: Seq<Marks>)
    requires
        first@.is_node(),
        second@ == first@.with_children(second@.children()),
        marks_become(first, second, marks_at(second).children()),
        marks_become(second, third, children),
    ensures
        marks_become(first, third, children),
{
    syntax_node::marks_edited_twice(
        first@,
        second@.children(),
        first.marks(),
        second.marks(),
        third.marks(),
        marks_at(second).children(),
        children,
    );
}

/// The number of the first child of `node` from `from` on that is of the kind `kind`; the number
/// of its children where none is.
fn find_kind(node: &SyntaxNode, from: usize, kind: SyntaxKind) -> (r: usize)
    requires
        from <= node@.children().len(),
    ensures
        r == tree::first(node@.children(), from as int, tree::of_kind(kind)),
        from <= r <= node@.children().len(),
        node@.is_node(),
{
    let children = node.children();
    let mut i = from;
    while i < children.len() && children[i].kind() != kind
        invariant
            from <= i <= children.len(),
            tree::views(children@) == node@.children(),
            forall|j: int|
                from <= j < i ==> !tree::of_kind(kind)(#[trigger] node@.children()[j]),
        decreases children.len() - i,
    {
        assert(node@.children()[i as int] == children@[i as int]@);
        i += 1;
    }
    proof {
        if i < children.len() {
            assert(node@.children()[i as int] == children@[i as int]@);
        }
        tree::first_is(node@.children(), from as int, tree::of_kind(kind), i as int);
    }
    i
}

/// The range of one element.
fn single_node(element: SyntaxElement) -> (r: RangeInclusive<SyntaxElement>)
    ensures
        !r@.exhausted,
        r@.start@ == element@,
        r@.end@ == element@,
{
    element.clone()..=element
}

impl BinExpr {
    /// The expression with another operator; `None` where it has none.
    pub open spec fn with_op(place: Place, op: SyntaxKind) -> Option<Place> {
        let i = tree::first(place.children(), 0, ast::operators());
        if i < place.children().len() {
            Some(place.with_children(place.children().update(i, make::fixed(op))))
        } else {
            None
        }
    }

    /// The expression with the operator `op`, which is punctuation or a keyword.
    #[must_use]
    pub fn replace_op(&self, op: SyntaxKind) -> (r: Option<BinExpr>)
        requires
            op.fixed_text() is Some,
        ensures
            ast::place_of(r) == Self::with_op(self@, op),
            r matches Some(changed) ==> marks_become(
                *self,
                changed,
                marks_at(*self).children().update(
                    tree::first(self@.children(), 0, ast::operators()),
                    Marks::Token,
                ),
            ),
    {
        let _ = self.syntax();
        let ghost i = tree::first(self@.children(), 0, ast::operators());
        proof {
            tree::first_bounds(self@.children(), 0, ast::operators());
            algo::child_fits(self@, i);
        }
        let op_node: SyntaxElement = match self.op_token() {
            Some(token) => NodeOrToken::Token(token),
            None => return None,
        };
        let to_insert = vec![NodeOrToken::Token(make::token(op))];
        let r = self.replace_children(single_node(op_node), to_insert);
        proof {
            assert(syntax_node::parts(to_insert@) =~= seq![make::fixed(op)]);
            assert(algo::replaced(self@.children(), i, i, seq![make::fixed(op)])
                =~= self@.children().update(i, make::fixed(op)));
            let marks = marks_at(*self).children();
            assert(syntax_node::part_marks(to_insert@) =~= seq![Marks::Token]);
            assert(algo::replaced(marks, i, i, seq![Marks::Token]) =~= marks.update(
                i,
                Marks::Token,
            ));
        }
        Some(r)
    }
}

/// The place with a line break after its opening curly bracket: what follows the bracket starts
/// on a line of its own, at the indentation of the line on which the place begins.
pub open spec fn multiline(place: Place) -> Place {
    let children = place.children();
    let next = tree::first(children, 0, tree::of_kind(SyntaxKind::L_CURLY)) + 1;
    let line = make::blank("\n"@ + indent::indent_at(place));
    if next >= children.len() {
        place
    } else if children[next] is Node || children[next].kind() != SyntaxKind::WHITESPACE {
        place.with_children(children.insert(next, line))
    } else if children[next].text().contains('\n') {
        place
    } else {
        place.with_children(children.update(next, line))
    }
}

/// The marks of the children of a place that gets a line break after its opening curly bracket.
pub open spec fn multiline_marks(place: Place, marks: Seq<Marks>) -> Seq<Marks> {
    let children = place.children();
    let next = tree::first(children, 0, tree::of_kind(SyntaxKind::L_CURLY)) + 1;
    if next >= children.len() {
        marks
    } else if children[next] is Node || children[next].kind() != SyntaxKind::WHITESPACE {
        marks.insert(next, Marks::Token)
    } else if children[next].text().contains('\n') {
        marks
    } else {
        marks.update(next, Marks::Token)
    }
}

/// `node`, which is put on several lines where it stands on one: what follows its opening bracket
/// begins a line.
pub fn make_multiline<N: AstNode + Clone>(node: N) -> (r: N)
    ensures
        r@ == multiline(node@),
        marks_become(node, r, multiline_marks(node@, marks_at(node).children())),
{
    let syntax = node.syntax();
    let children = syntax.children();
    let l_curly = find_kind(syntax, 0, SyntaxKind::L_CURLY);
    assert(children.len() == node@.children().len());
    if l_curly == children.len() || l_curly + 1 == children.len() {
        return node;
    }
    let next: usize = l_curly + 1;
    proof {
        algo::child_fits(node@, l_curly as int);
        algo::child_fits(node@, next as int);
        assert(node@.children()[next as int] == children@[next as int]@);
    }
    let blank = !children[next].is_node() && children[next].kind() == SyntaxKind::WHITESPACE;
    if blank && children[next].contains_char('\n') {
        return node;
    }
    let mut text = "\n".to_owned();
    text.append(indent::indent_or_empty(syntax).as_str());
    let ghost line = make::blank(text@);
    let to_insert = vec![NodeOrToken::Token(make::whitespace(text))];
    assert(syntax_node::parts(to_insert@) =~= seq![line]);
    assert(syntax_node::part_marks(to_insert@) =~= seq![Marks::Token]);
    let ghost marks = marks_at(node).children();
    if blank {
        let r = node.replace_children(single_node(syntax.child(next)), to_insert);
        assert(algo::replaced(node@.children(), next as int, next as int, seq![line])
            =~= node@.children().update(next as int, line));
        assert(algo::replaced(marks, next as int, next as int, seq![Marks::Token])
            =~= marks.update(next as int, Marks::Token));
        r
    } else {
        let r = node.insert_children(InsertPosition::After(syntax.child(l_curly)), to_insert);
        assert(algo::inserted(node@.children(), next as int, seq![line])
            =~= node@.children().insert(next as int, line));
        assert(algo::inserted(marks, next as int, seq![Marks::Token]) =~= marks.insert(
            next as int,
            Marks::Token,
        ));
        r
    }
}

impl InsertPosition<&RecordExprField> {
    /// The field that the position is relative to is a child of `list`.
    pub open spec fn fits_field(self, list: Place) -> bool {
        match self {
            InsertPosition::First | InsertPosition::Last => true,
            InsertPosition::Before(anchor) | InsertPosition::After(anchor) => anchor@.is_child_of(
                list,
            ),
        }
    }
}

impl RecordExprFieldList {
    /// What separates a new field from what stands before it: a space, or in a list of several
    /// lines a line break and one level more than the line on which the list begins.
    pub open spec fn space(list: Place) -> Tree {
        if list.here().text().contains('\n') {
            make::blank("\n"@ + indent::indent_at(list) + "    "@)
        } else {
            make::blank(" "@)
        }
    }

    /// The list with `new` inserted after its opening bracket; the list itself without one.
    pub open spec fn after_l_curly(list: Place, new: Seq<Tree>) -> Place {
        let i = tree::first(list.children(), 0, ast::tokens_of(SyntaxKind::L_CURLY));
        if i < list.children().len() {
            list.with_children(algo::inserted(list.children(), i + 1, new))
        } else {
            list
        }
    }

    /// The list with `new` inserted after the first comma that follows the child with number
    /// `i`; where none follows, after that child and a comma.
    pub open spec fn after_field(list: Place, i: int, new: Seq<Tree>) -> Place {
        let comma = tree::first(list.children(), i, tree::of_kind(SyntaxKind::COMMA));
        if comma < list.children().len() {
            list.with_children(algo::inserted(list.children(), comma + 1, new))
        } else {
            list.with_children(
                algo::inserted(
                    list.children(),
                    i + 1,
                    seq![make::fixed(SyntaxKind::COMMA)] + new,
                ),
            )
        }
    }

    /// The list with one field more. A comma follows the field, unless it comes last on the one
    /// line of the list.
    pub open spec fn with_field(
        list: Place,
        position: InsertPosition<&RecordExprField>,
        field: Tree,
    ) -> Place {
        let last = tree::last(
            list.children(),
            list.children().len() as int,
            ast::nodes_of::<RecordExprField>(),
        );
        let short = seq![Self::space(list), field];
        let full = short.push(make::fixed(SyntaxKind::COMMA));
        let new = if position is Last && !list.here().text().contains('\n') {
            short
        } else {
            full
        };
        match position {
            InsertPosition::First => Self::after_l_curly(list, new),
            InsertPosition::Last => if last >= 0 {
                Self::after_field(list, last, new)
            } else {
                Self::after_l_curly(list, new)
            },
            InsertPosition::Before(anchor) => list.with_children(
                algo::inserted(list.children(), anchor@.index(), new),
            ),
            InsertPosition::After(anchor) => Self::after_field(list, anchor@.index(), new),
        }
    }

    /// `marks` with `new` inserted after that of the opening bracket.
    pub open spec fn after_l_curly_marks(
        list: Place,
        marks: Seq<Marks>,
        new: Seq<Marks>,
    ) -> Seq<Marks> {
        let i = tree::first(list.children(), 0, ast::tokens_of(SyntaxKind::L_CURLY));
        if i < list.children().len() {
            algo::inserted(marks, i + 1, new)
        } else {
            marks
        }
    }

    /// `marks` with `new` inserted after the first comma that follows the child with number `i`;
    /// where none follows, after that child and a comma.
    pub open spec fn after_field_marks(
        list: Place,
        i: int,
        marks: Seq<Marks>,
        new: Seq<Marks>,
    ) -> Seq<Marks> {
        let comma = tree::first(list.children(), i, tree::of_kind(SyntaxKind::COMMA));
        if comma < list.children().len() {
            algo::inserted(marks, comma + 1, new)
        } else {
            algo::inserted(marks, i + 1, seq![Marks::Token] + new)
        }
    }

    /// The marks of the children of a list that gets a field with the marks `field`.
    pub open spec fn with_field_marks(
        list: Place,
        position: InsertPosition<&RecordExprField>,
        marks: Seq<Marks>,
        field: Marks,
    ) -> Seq<Marks> {
        let last = tree::last(
            list.children(),
            list.children().len() as int,
            ast::nodes_of::<RecordExprField>(),
        );
        let new = if position is Last && !list.here().text().contains('\n') {
            seq![Marks::Token, field]
        } else {
            seq![Marks::Token, field, Marks::Token]
        };
        match position {
            InsertPosition::First => Self::after_l_curly_marks(list, marks, new),
            InsertPosition::Last => if last >= 0 {
                Self::after_field_marks(list, last, marks, new)
            } else {
                Self::after_l_curly_marks(list, marks, new)
            },
            InsertPosition::Before(anchor) => algo::inserted(marks, anchor@.index(), new),
            InsertPosition::After(anchor) => Self::after_field_marks(
                list,
                anchor@.index(),
                marks,
                new,
            ),
        }
    }

    /// The list with `field` as its last field.
    #[must_use]
    pub fn append_field(&self, field: &RecordExprField) -> (r: RecordExprFieldList)
        ensures
            r@ == Self::with_field(self@, InsertPosition::Last, field@.here()),
            marks_become(
                *self,
                r,
                Self::with_field_marks(
                    self@,
                    InsertPosition::Last,
                    marks_at(*self).children(),
                    marks_at(*field),
                ),
            ),
    {
        self.insert_field(InsertPosition::Last, field)
    }

    /// The list with `field` inserted. A field that the position is relative to has to be one of
    /// the list.
    #[must_use]
    pub fn insert_field(
        &self,
        position: InsertPosition<&'_ RecordExprField>,
        field: &RecordExprField,
    ) -> (r: RecordExprFieldList)
        requires
            position.fits_field(self@),
        ensures
            r@ == Self::with_field(self@, position, field@.here()),
            marks_become(
                *self,
                r,
                Self::with_field_marks(
                    self@,
                    position,
                    marks_at(*self).children(),
                    marks_at(*field),
                ),
            ),
    {
        let is_multiline = self.syntax().green().contains_char('\n');
        let space = if is_multiline {
            let mut text = "\n".to_owned();
            text.append(indent::indent_or_empty(self.syntax()).as_str());
            text.append("    ");
            make::whitespace(text)
        } else {
            make::single_space()
        };
        let mut to_insert = buffer::new();
        buffer::push(&mut to_insert, NodeOrToken::Token(space));
        buffer::push(&mut to_insert, NodeOrToken::Node(field.syntax().clone()));
        buffer::push(&mut to_insert, NodeOrToken::Token(make::token(SyntaxKind::COMMA)));
        let ghost short = seq![Self::space(self@), field@.here()];
        assert(syntax_node::parts(buffer::held(to_insert)) =~= short.push(
            make::fixed(SyntaxKind::COMMA),
        ));
        assert(syntax_node::part_marks(buffer::held(to_insert)) =~= seq![
            Marks::Token,
            marks_at(*field),
            Marks::Token,
        ]);
        match position {
            InsertPosition::First => self.insert_after_l_curly(to_insert),
            InsertPosition::Last => {
                if !is_multiline {
                    // no comma before the closing bracket
                    buffer::pop(&mut to_insert);
                    assert(syntax_node::parts(buffer::held(to_insert)) =~= short);
                    assert(syntax_node::part_marks(buffer::held(to_insert)) =~= seq![
                        Marks::Token,
                        marks_at(*field),
                    ]);
                }
                proof {
                    tree::last_bounds(
                        self@.children(),
                        self@.children().len() as int,
                        ast::nodes_of::<RecordExprField>(),
                    );
                }
                match self.last_field() {
                    Some(it) => {
                        proof {
                            algo::child_fits(
                                self@,
                                tree::last(
                                    self@.children(),
                                    self@.children().len() as int,
                                    ast::nodes_of::<RecordExprField>(),
                                ),
                            );
                        }
                        self.insert_after_field(&it, to_insert)
                    },
                    None => self.insert_after_l_curly(to_insert),
                }
            },
            InsertPosition::Before(anchor) => {
                let position = InsertPosition::Before(NodeOrToken::Node(anchor.syntax().clone()));
                self.insert_children(position, buffer::into_vec(to_insert))
            },
            InsertPosition::After(anchor) => self.insert_after_field(anchor, to_insert),
        }
    }

    fn insert_after_l_curly(&self, to_insert: arrayvec::ArrayVec<SyntaxElement, 4>) -> (r:
        RecordExprFieldList)
        ensures
            r@ == Self::after_l_curly(self@, syntax_node::parts(buffer::held(to_insert))),
            marks_become(
                *self,
                r,
                Self::after_l_curly_marks(
                    self@,
                    marks_at(*self).children(),
                    syntax_node::part_marks(buffer::held(to_insert)),
                ),
            ),
    {
        proof {
            let i = tree::first(self@.children(), 0, ast::tokens_of(SyntaxKind::L_CURLY));
            tree::first_bounds(self@.children(), 0, ast::tokens_of(SyntaxKind::L_CURLY));
            algo::child_fits(self@, i);
        }
        match self.l_curly_token() {
            Some(anchor) => {
                let position = InsertPosition::After(NodeOrToken::Token(anchor));
                self.insert_children(position, buffer::into_vec(to_insert))
            },
            None => self.clone(),
        }
    }

    fn insert_after_field(
        &self,
        anchor: &RecordExprField,
        to_insert: arrayvec::ArrayVec<SyntaxElement, 4>,
    ) -> (r: RecordExprFieldList)
        requires
            anchor@.is_child_of(self@),
            buffer::held(to_insert).len() < 4,
        ensures
            r@ == Self::after_field(
                self@,
                anchor@.index(),
                syntax_node::parts(buffer::held(to_insert)),
            ),
            marks_become(
                *self,
                r,
                Self::after_field_marks(
                    self@,
                    anchor@.index(),
                    marks_at(*self).children(),
                    syntax_node::part_marks(buffer::held(to_insert)),
                ),
            ),
    {
        let mut to_insert = to_insert;
        let ghost new = syntax_node::parts(buffer::held(to_insert));
        let ghost new_marks = syntax_node::part_marks(buffer::held(to_insert));
        let index = anchor.syntax().index();
        proof {
            algo::child_stands(anchor@, self@);
        }
        let comma = find_kind(self.syntax(), index, SyntaxKind::COMMA);
        let count = self.syntax().children().len();
        if comma < count {
            proof {
                algo::child_fits(self@, comma as int);
            }
            let position = InsertPosition::After(self.syntax().child(comma));
            self.insert_children(position, buffer::into_vec(to_insert))
        } else {
            buffer::insert(
                &mut to_insert,
                0,
                NodeOrToken::Token(make::token(SyntaxKind::COMMA)),
            );
            assert(syntax_node::parts(buffer::held(to_insert)) =~= seq![
                make::fixed(SyntaxKind::COMMA),
            ] + new);
            assert(syntax_node::part_marks(buffer::held(to_insert)) =~= seq![Marks::Token]
                + new_marks);
            let position = InsertPosition::After(NodeOrToken::Node(anchor.syntax().clone()));
            self.insert_children(position, buffer::into_vec(to_insert))
        }
    }
}

impl Path {
    /// The path with another segment; the path itself where it has none.
    pub open spec fn segment_changed(path: Place, segment: Tree) -> Place {
        let i = tree::first(path.children(), 0, ast::nodes_of::<PathSegment>());
        if i < path.children().len() {
            path.with_children(path.children().update(i, segment))
        } else {
            path
        }
    }

    /// The path with the segment `segment` in place of its own; the path itself where it has
    /// none.
    #[must_use]
    pub fn with_segment(&self, segment: PathSegment) -> (r: Path)
        ensures
            r@ == Self::segment_changed(self@, segment@.here()),
            ({
                let i = tree::first(self@.children(), 0, ast::nodes_of::<PathSegment>());
                let marks = marks_at(*self).children();
                marks_become(
                    *self,
                    r,
                    if i < self@.children().len() {
                        marks.update(i, marks_at(segment))
                    } else {
                        marks
                    },
                )
            }),
    {
        let _ = self.syntax();
        let ghost i = tree::first(self@.children(), 0, ast::nodes_of::<PathSegment>());
        proof {
            tree::first_bounds(self@.children(), 0, ast::nodes_of::<PathSegment>());
            algo::child_fits(self@, i);
        }
        match self.segment() {
            Some(old) => {
                let old = NodeOrToken::Node(old.syntax().clone());
                let to_insert = vec![NodeOrToken::Node(segment.syntax().clone())];
                assert(syntax_node::parts(to_insert@) =~= seq![segment@.here()]);
                assert(algo::replaced(self@.children(), i, i, seq![segment@.here()])
                    =~= self@.children().update(i, segment@.here()));
                let ghost marks = marks_at(*self).children();
                assert(syntax_node::part_marks(to_insert@) =~= seq![marks_at(segment)]);
                assert(algo::replaced(marks, i, i, seq![marks_at(segment)]) =~= marks.update(
                    i,
                    marks_at(segment),
                ));
                self.replace_children(single_node(old), to_insert)
            },
            None => self.clone(),
        }
    }
}

impl PathSegment {
    /// The segment with the generic arguments `args` in place of its own. Where it has none they
    /// come last, after `::` where `turbo`.
    pub open spec fn args_changed(segment: Place, args: Tree, turbo: bool) -> Place {
        let children = segment.children();
        let i = tree::first(children, 0, ast::nodes_of::<GenericArgList>());
        if i < children.len() {
            segment.with_children(children.update(i, args))
        } else if turbo {
            segment.with_children(children + seq![make::fixed(SyntaxKind::COLON2), args])
        } else {
            segment.with_children(children.push(args))
        }
    }

    /// The marks of the children of a segment that gets generic arguments with the marks `args`.
    pub open spec fn args_marks(
        segment: Place,
        marks: Seq<Marks>,
        args: Marks,
        turbo: bool,
    ) -> Seq<Marks> {
        let i = tree::first(segment.children(), 0, ast::nodes_of::<GenericArgList>());
        if i < segment.children().len() {
            marks.update(i, args)
        } else if turbo {
            marks + seq![Marks::Token, args]
        } else {
            marks.push(args)
        }
    }

    /// The segment with the generic arguments `type_args`.
    #[must_use]
    pub fn with_generic_args(&self, type_args: GenericArgList) -> (r: PathSegment)
        ensures
            r@ == Self::args_changed(self@, type_args@.here(), false),
            marks_become(
                *self,
                r,
                Self::args_marks(self@, marks_at(*self).children(), marks_at(type_args), false),
            ),
    {
        self._with_generic_args(type_args, false)
    }

    /// The segment with the generic arguments `type_args`, after `::` where it has none yet.
    #[must_use]
    pub fn with_turbo_fish(&self, type_args: GenericArgList) -> (r: PathSegment)
        ensures
            r@ == Self::args_changed(self@, type_args@.here(), true),
            marks_become(
                *self,
                r,
                Self::args_marks(self@, marks_at(*self).children(), marks_at(type_args), true),
            ),
    {
        self._with_generic_args(type_args, true)
    }

    fn _with_generic_args(&self, type_args: GenericArgList, turbo: bool) -> (r: PathSegment)
        ensures
            r@ == Self::args_changed(self@, type_args@.here(), turbo),
            marks_become(
                *self,
                r,
                Self::args_marks(self@, marks_at(*self).children(), marks_at(type_args), turbo),
            ),
    {
        let _ = self.syntax();
        let ghost marks = marks_at(*self).children();
        let ghost args_mark = marks_at(type_args);
        let ghost i = tree::first(self@.children(), 0, ast::nodes_of::<GenericArgList>());
        let ghost args = type_args@.here();
        proof {
            tree::first_bounds(self@.children(), 0, ast::nodes_of::<GenericArgList>());
            algo::child_fits(self@, i);
        }
        match self.generic_arg_list() {
            Some(old) => {
                let old = NodeOrToken::Node(old.syntax().clone());
                let to_insert = vec![NodeOrToken::Node(type_args.syntax().clone())];
                assert(syntax_node::parts(to_insert@) =~= seq![args]);
                assert(algo::replaced(self@.children(), i, i, seq![args])
                    =~= self@.children().update(i, args));
                assert(syntax_node::part_marks(to_insert@) =~= seq![args_mark]);
                assert(algo::replaced(marks, i, i, seq![args_mark]) =~= marks.update(
                    i,
                    args_mark,
                ));
                return self.replace_children(single_node(old), to_insert);
            },
            None => {},
        }
        let mut to_insert = buffer::new();
        if turbo {
            buffer::push(&mut to_insert, NodeOrToken::Token(make::token(SyntaxKind::COLON2)));
        }
        buffer::push(&mut to_insert, NodeOrToken::Node(type_args.syntax().clone()));
        proof {
            let new = syntax_node::parts(buffer::held(to_insert));
            let new_marks = syntax_node::part_marks(buffer::held(to_insert));
            let children = self@.children();
            if turbo {
                assert(new =~= seq![make::fixed(SyntaxKind::COLON2), args]);
                assert(algo::inserted(children, children.len() as int, new) =~= children + new);
                assert(new_marks =~= seq![Marks::Token, args_mark]);
                assert(algo::inserted(marks, marks.len() as int, new_marks) =~= marks + new_marks);
            } else {
                assert(new =~= seq![args]);
                assert(new_marks =~= seq![args_mark]);
                assert(algo::inserted(marks, marks.len() as int, new_marks) =~= marks.push(
                    args_mark,
                ));
                assert(algo::inserted(children, children.len() as int, new) =~= children.push(
                    args,
                ));
            }
        }
        self.insert_children(InsertPosition::Last, buffer::into_vec(to_insert))
    }
}

impl UseTree {
    /// The segments of the paths that `path` qualifies, as a path that `start` qualifies; `None`
    /// where one of those paths has no segment.
    pub open spec fn extended(path: Place, start: Tree) -> Option<Tree>
        decreases path.path.len(),
    {
        match Path::above(path) {
            None => Some(start),
            Some(longer) => match ast::child_of::<PathSegment>(longer) {
                None => None,
                Some(segment) => Self::extended(longer, make::long_path(start, segment.here())),
            },
        }
    }

    /// What follows `prefix` in the path that it is part of; `None` where nothing follows, or
    /// what follows could not be parsed.
    pub open spec fn suffix(prefix: Place) -> Option<Tree> {
        match Path::above(prefix) {
            None => None,
            Some(longer) => match ast::child_of::<PathSegment>(longer) {
                None => None,
                Some(segment) => if algo::holds_error(segment.here()) {
                    None
                } else {
                    Self::extended(longer, make::short_path(segment.here()))
                },
            },
        }
    }

    /// The parts at optional places.
    pub open spec fn part(place: Option<Place>) -> Option<Tree> {
        match place {
            Some(place) => Some(place.here()),
            None => None,
        }
    }

    /// Whether `prefix` is the path of the use tree itself, which has no list. The marks are those
    /// of the trees that the two stand in.
    pub open spec fn is_whole(
        use_tree: Place,
        marks: Marks,
        prefix: Place,
        prefix_marks: Marks,
    ) -> bool {
        &&& ast::child_of::<UseTreeList>(use_tree) is None
        &&& ast::child_of::<Path>(use_tree) matches Some(path) && syntax_node::one_node(
            path,
            marks,
            prefix,
            prefix_marks,
        )
    }

    /// `prefix::{suffix}`, with what followed the path of the use tree after the suffix. The
    /// `whole` path leaves `self` as the suffix. Where there is no suffix, the use tree itself.
    pub open spec fn split(use_tree: Place, prefix: Place, whole: bool) -> Place {
        let list = ast::child_of::<UseTreeList>(use_tree);
        let suffix = if whole {
            Some(make::short_path(make::self_segment()))
        } else {
            Self::suffix(prefix)
        };
        match suffix {
            None => use_tree,
            Some(suffix) => {
                let rest = make::use_tree_of(
                    suffix,
                    Self::part(list),
                    Self::part(ast::child_of::<Rename>(use_tree)),
                    ast::token_of(use_tree, SyntaxKind::STAR) is Some,
                );
                Place::root(
                    make::use_tree_of(
                        prefix.here(),
                        Some(make::use_tree_list_of(rest)),
                        None,
                        false,
                    ),
                )
            },
        }
    }

    /// Splits off the given prefix, making it the path component of the use tree, appending the
    /// rest of the path to all items of its list. The prefix is a path that the path of the use
    /// tree begins with, or that path itself.
    #[must_use]
    pub fn split_prefix(&self, prefix: &Path) -> (r: UseTree)
        ensures
            r@ == Self::split(
                self@,
                prefix@,
                Self::is_whole(self@, self.marks(), prefix@, prefix.marks()),
            ),
            !Self::is_whole(self@, self.marks(), prefix@, prefix.marks()) && Self::suffix(
                prefix@,
            ) is None ==> r.marks() == self.marks(),
    {
        let list = self.use_tree_list();
        let whole = match self.path() {
            Some(path) => path.syntax().identical(prefix.syntax()) && list.is_none(),
            None => false,
        };
        let suffix = if whole {
            make::path_unqualified(&make::path_segment_self())
        } else {
            match Self::split_path_prefix(prefix) {
                Some(it) => it,
                None => return self.clone(),
            }
        };
        let use_tree = make::use_tree(&suffix, list, self.rename(), self.star_token().is_some());
        let nested = make::use_tree_list(&use_tree);
        make::use_tree(prefix, Some(nested), None, false)
    }

    fn split_path_prefix(prefix: &Path) -> (r: Option<Path>)
        ensures
            r is Some <==> Self::suffix(prefix@) is Some,
            r matches Some(path) ==> Some(path@.here()) == Self::suffix(prefix@),
    {
        let mut longer = match prefix.parent_path() {
            Some(it) => it,
            None => return None,
        };
        let segment = match longer.segment() {
            Some(it) => it,
            None => return None,
        };
        if algo::has_errors(segment.syntax()) {
            return None;
        }
        let mut res = make::path_unqualified(&segment);
        loop
            invariant
                Self::extended(longer@, res@.here()) == Self::suffix(prefix@),
            decreases longer@.path.len(),
        {
            longer = match longer.parent_path() {
                Some(it) => it,
                None => return Some(res),
            };
            let segment = match longer.segment() {
                Some(it) => it,
                None => return None,
            };
            res = make::path_qualified(&res, &segment);
        }
    }
}

/// Of two edits of the children of a node the second stands.
pub(crate) proof fn edited_twice(place: Place, a: Seq<Tree>, b: Seq<Tree>)
    requires
        place.is_node(),
    ensures
        place.with_children(a).with_children(b) == place.with_children(b),
        place.with_children(place.children()) == place,
{
    algo::with_children_keeps(place, a);
    tree::put_twice(
        place.tree,
        place.path,
        Tree::Node(place.kind(), a),
        Tree::Node(place.kind(), b),
    );
    tree::put_same(place.tree, place.path);
}

/// A node that is put on several lines is edited in its children alone.
proof fn multiline_edits(place: Place)
    requires
        place.is_node(),
    ensures
        multiline(place) == place.with_children(multiline(place).children()),
{
    let children = place.children();
    let next = tree::first(children, 0, tree::of_kind(SyntaxKind::L_CURLY)) + 1;
    let line = make::blank("\n"@ + indent::indent_at(place));
    edited_twice(place, children, children);
    algo::with_children_keeps(place, children.insert(next, line));
    algo::with_children_keeps(place, children.update(next, line));
}

/// A list that gets an arm is edited in its children alone.
proof fn arm_edits(list: Place, arm: Tree)
    requires
        list.is_node(),
    ensures
        MatchArmList::with_arm(list, arm) == list.with_children(
            MatchArmList::with_arm(list, arm).children(),
        ),
{
    let end = tree::first(list.children(), 0, tree::of_kind(SyntaxKind::R_CURLY));
    let new = seq![
        make::blank("    "@),
        arm,
        make::blank("\n"@ + indent::indent_at(list)),
    ];
    edited_twice(list, list.children(), list.children());
    algo::with_children_keeps(list, algo::inserted(list.children(), end, new));
}

impl MatchArmList {
    /// The list without what stands between its brackets, where that is whitespace alone.
    pub open spec fn stripped(list: Place) -> Place {
        let children = list.children();
        let start = tree::first(children, 0, tree::of_kind(SyntaxKind::L_CURLY)) + 1;
        let end = tree::first(children, start, tree::of_kind(SyntaxKind::R_CURLY));
        if start < end && forall|i: int|
            start <= i < end ==> (#[trigger] children[i]).kind() == SyntaxKind::WHITESPACE {
            list.with_children(children.take(start) + children.skip(end))
        } else {
            list
        }
    }

    /// The list with the arm `arm` before its closing bracket; the list itself where it has no
    /// such bracket. The bracket comes on a line of its own.
    pub open spec fn with_arm(list: Place, arm: Tree) -> Place {
        let end = tree::first(list.children(), 0, tree::of_kind(SyntaxKind::R_CURLY));
        if end < list.children().len() {
            list.with_children(
                algo::inserted(
                    list.children(),
                    end,
                    seq![
                        make::blank("    "@),
                        arm,
                        make::blank("\n"@ + indent::indent_at(list)),
                    ],
                ),
            )
        } else {
            list
        }
    }

    /// The list with the arms `arms` before its closing bracket, one after the other.
    pub open spec fn with_arms(list: Place, arms: Seq<Tree>) -> Place
        decreases arms.len(),
    {
        if arms.len() == 0 {
            list
        } else {
            Self::with_arm(Self::with_arms(list, arms.drop_last()), arms.last())
        }
    }

    /// The list as arms are appended to it: on several lines.
    pub open spec fn opened(list: Place) -> Place {
        let stripped = Self::stripped(list);
        if stripped.here().text().contains('\n') {
            stripped
        } else {
            multiline(stripped)
        }
    }

    /// Arms with the pattern `_`.
    pub open spec fn placeholders() -> spec_fn(Tree) -> bool {
        |tree: Tree|
            {
                let i = tree::first(tree.children(), 0, ast::nodes_of::<Pat>());
                &&& tree is Node
                &&& tree.kind() == SyntaxKind::MATCH_ARM
                &&& i < tree.children().len()
                &&& tree.children()[i].kind() == SyntaxKind::WILDCARD_PAT
            }
    }

    /// Everything but whitespace and comments.
    pub open spec fn solid() -> spec_fn(Tree) -> bool {
        |tree: Tree| !tree.kind().trivia()
    }

    /// The list without its child with number `i`, and without the comma that follows it.
    pub open spec fn without_arm(list: Place, i: int) -> Place {
        let children = list.children();
        let next = tree::first(children, i + 1, Self::solid());
        if next < children.len() && children[next].kind() == SyntaxKind::COMMA {
            list.with_children(children.take(i) + children.skip(next + 1))
        } else {
            list.with_children(children.remove(i))
        }
    }

    /// The list without the first arm that has the pattern `_`; the list itself where none has.
    pub open spec fn without_placeholder(list: Place) -> Place {
        let i = tree::first(list.children(), 0, Self::placeholders());
        if i < list.children().len() {
            Self::without_arm(list, i)
        } else {
            list
        }
    }

    /// The marks of the children of a list without what stands between its brackets, where that is
    /// whitespace alone.
    pub open spec fn stripped_marks(list: Place, marks: Seq<Marks>) -> Seq<Marks> {
        let children = list.children();
        let start = tree::first(children, 0, tree::of_kind(SyntaxKind::L_CURLY)) + 1;
        let end = tree::first(children, start, tree::of_kind(SyntaxKind::R_CURLY));
        if start < end && forall|i: int|
            start <= i < end ==> (#[trigger] children[i]).kind() == SyntaxKind::WHITESPACE {
            marks.take(start) + marks.skip(end)
        } else {
            marks
        }
    }

    /// The marks of the children of a list that gets an arm with the marks `arm`.
    pub open spec fn with_arm_marks(list: Place, marks: Seq<Marks>, arm: Marks) -> Seq<Marks> {
        let end = tree::first(list.children(), 0, tree::of_kind(SyntaxKind::R_CURLY));
        if end < list.children().len() {
            algo::inserted(marks, end, seq![Marks::Token, arm, Marks::Token])
        } else {
            marks
        }
    }

    /// The marks of the children of a list that gets the arms `arms`, with the marks `arm_marks`,
    /// one after the other.
    pub open spec fn with_arms_marks(
        list: Place,
        marks: Seq<Marks>,
        arms: Seq<Tree>,
        arm_marks: Seq<Marks>,
    ) -> Seq<Marks>
        decreases arms.len(),
    {
        if arms.len() == 0 {
            marks
        } else {
            Self::with_arm_marks(
                Self::with_arms(list, arms.drop_last()),
                Self::with_arms_marks(list, marks, arms.drop_last(), arm_marks),
                arm_marks[arms.len() - 1],
            )
        }
    }

    /// The marks of the children of a list as arms are appended to it.
    pub open spec fn opened_marks(list: Place, marks: Seq<Marks>) -> Seq<Marks> {
        let stripped = Self::stripped(list);
        if stripped.here().text().contains('\n') {
            Self::stripped_marks(list, marks)
        } else {
            multiline_marks(stripped, Self::stripped_marks(list, marks))
        }
    }

    /// The marks of the children of a list without its child with number `i`, and without the comma
    /// that follows it.
    pub open spec fn without_arm_marks(list: Place, i: int, marks: Seq<Marks>) -> Seq<Marks> {
        let children = list.children();
        let next = tree::first(children, i + 1, Self::solid());
        if next < children.len() && children[next].kind() == SyntaxKind::COMMA {
            marks.take(i) + marks.skip(next + 1)
        } else {
            marks.remove(i)
        }
    }

    /// The marks of the children of a list without the first arm that has the pattern `_`.
    pub open spec fn without_placeholder_marks(list: Place, marks: Seq<Marks>) -> Seq<Marks> {
        let i = tree::first(list.children(), 0, Self::placeholders());
        if i < list.children().len() {
            Self::without_arm_marks(list, i, marks)
        } else {
            marks
        }
    }

    /// The list with the arms `items` at its end.
    #[must_use]
    pub fn append_arms(&self, items: Vec<MatchArm>) -> (r: MatchArmList)
        ensures
            r@ == Self::with_arms(Self::opened(self@), make::arm_parts(items@)),
            marks_become(
                *self,
                r,
                Self::with_arms_marks(
                    Self::opened(self@),
                    Self::opened_marks(self@, marks_at(*self).children()),
                    make::arm_parts(items@),
                    make::arm_marks(items@),
                ),
            ),
    {
        let ghost arms = make::arm_parts(items@);
        let ghost arm_marks = make::arm_marks(items@);
        let ghost opened_marks = Self::opened_marks(self@, marks_at(*self).children());
        let mut res = self.strip_if_only_whitespace();
        if !res.syntax().green().contains_char('\n') {
            let open = make_multiline(res.clone());
            proof {
                multiline_edits(res@);
                edited_twice(self@, res@.children(), open@.children());
                marks_become_twice(
                    *self,
                    res,
                    open,
                    multiline_marks(res@, marks_at(res).children()),
                );
            }
            res = open;
        }
        assert(arms.take(0) =~= Seq::<Tree>::empty());
        let mut i: usize = 0;
        while i < items.len()
            invariant
                i <= items.len(),
                arms == make::arm_parts(items@),
                res@ == Self::with_arms(Self::opened(self@), arms.take(i as int)),
                arm_marks == make::arm_marks(items@),
                self@.is_node(),
                res@ == self@.with_children(res@.children()),
                marks_become(*self, res, marks_at(res).children()),
                marks_at(res).children() == Self::with_arms_marks(
                    Self::opened(self@),
                    opened_marks,
                    arms.take(i as int),
                    arm_marks,
                ),
            decreases items.len() - i,
        {
            let longer = res.append_arm(items[i].clone());
            proof {
                arm_edits(res@, arms[i as int]);
                edited_twice(self@, res@.children(), longer@.children());
                marks_become_twice(*self, res, longer, marks_at(longer).children());
            }
            res = longer;
            i += 1;
            assert(arms.take(i as int).drop_last() =~= arms.take(i - 1));
        }
        assert(arms.take(i as int) =~= arms);
        res
    }

    fn strip_if_only_whitespace(&self) -> (r: MatchArmList)
        ensures
            r@ == Self::stripped(self@),
            r@ == self@.with_children(r@.children()),
            self@.is_node(),
            marks_become(*self, r, Self::stripped_marks(self@, marks_at(*self).children())),
    {
        let syntax = self.syntax();
        proof {
            tree::put_same(self@.tree, self@.path);
        }
        let children = syntax.children();
        let count = children.len();
        assert(count == self@.children().len());
        let l_curly = find_kind(syntax, 0, SyntaxKind::L_CURLY);
        if l_curly == count {
            return self.clone();
        }
        let start: usize = l_curly + 1;
        let end = find_kind(syntax, start, SyntaxKind::R_CURLY);
        let mut i = start;
        while i < end
            invariant
                start <= i <= end <= children.len(),
                tree::views(children@) == self@.children(),
                self@.is_node(),
                self@ == self@.with_children(self@.children()),
                start == tree::first(self@.children(), 0, tree::of_kind(SyntaxKind::L_CURLY)) + 1,
                end == tree::first(
                    self@.children(),
                    start as int,
                    tree::of_kind(SyntaxKind::R_CURLY),
                ),
                forall|j: int|
                    start <= j < i ==> (#[trigger] self@.children()[j]).kind()
                        == SyntaxKind::WHITESPACE,
            decreases end - i,
        {
            assert(self@.children()[i as int] == children@[i as int]@);
            if children[i].kind() != SyntaxKind::WHITESPACE {
                return self.clone();
            }
            i += 1;
        }
        if start == end {
            return self.clone();
        }
        proof {
            algo::child_fits(self@, start as int);
            algo::child_fits(self@, end - 1);
        }
        let range = syntax.child(start)..=syntax.child(end - 1);
        let to_insert: Vec<SyntaxElement> = Vec::new();
        let r = self.replace_children(range, to_insert);
        proof {
            let none = syntax_node::parts(to_insert@);
            assert(none =~= Seq::<Tree>::empty());
            assert(algo::replaced(self@.children(), start as int, end - 1, none)
                =~= self@.children().take(start as int) + self@.children().skip(end as int));
            let marks = marks_at(*self).children();
            let no_marks = syntax_node::part_marks(to_insert@);
            assert(no_marks =~= Seq::<Marks>::empty());
            assert(algo::replaced(marks, start as int, end - 1, no_marks) =~= marks.take(
                start as int,
            ) + marks.skip(end as int));
            algo::with_children_keeps(
                self@,
                self@.children().take(start as int) + self@.children().skip(end as int),
            );
        }
        r
    }

    /// The list without the first arm that has the pattern `_`.
    #[must_use]
    pub fn remove_placeholder(&self) -> (r: MatchArmList)
        ensures
            r@ == Self::without_placeholder(self@),
            marks_become(
                *self,
                r,
                Self::without_placeholder_marks(self@, marks_at(*self).children()),
            ),
    {
        let syntax = self.syntax();
        let children = syntax.children();
        let mut i: usize = 0;
        while i < children.len()
            invariant
                i <= children.len(),
                syntax@ == self@,
                self@.is_node(),
                tree::views(children@) == self@.children(),
                forall|j: int|
                    0 <= j < i ==> !Self::placeholders()(#[trigger] self@.children()[j]),
            decreases children.len() - i,
        {
            proof {
                algo::child_fits(self@, i as int);
            }
            if let NodeOrToken::Node(node) = syntax.child(i) {
                if let Some(arm) = MatchArm::cast(node) {
                    let ghost k = tree::first(arm@.children(), 0, ast::nodes_of::<Pat>());
                    proof {
                        tree::first_bounds(arm@.children(), 0, ast::nodes_of::<Pat>());
                        algo::child_fits(arm@, k);
                    }
                    if let Some(pat) = arm.pat() {
                        if pat.syntax().kind() == SyntaxKind::WILDCARD_PAT {
                            proof {
                                tree::first_is(
                                    self@.children(),
                                    0,
                                    Self::placeholders(),
                                    i as int,
                                );
                            }
                            return self.remove_arm(&arm);
                        }
                    }
                }
            }
            i += 1;
        }
        proof {
            tree::first_is(self@.children(), 0, Self::placeholders(), i as int);
        }
        self.clone()
    }

    #[must_use]
    fn remove_arm(&self, arm: &MatchArm) -> (r: MatchArmList)
        requires
            arm@.is_child_of(self@),
        ensures
            r@ == Self::without_arm(self@, arm@.index()),
            marks_become(
                *self,
                r,
                Self::without_arm_marks(self@, arm@.index(), marks_at(*self).children()),
            ),
    {
        let syntax = self.syntax();
        let children = syntax.children();
        let start = arm.syntax().index();
        proof {
            algo::child_stands(arm@, self@);
        }
        assert(children.len() == self@.children().len());
        let mut i: usize = start + 1;
        while i < children.len() && children[i].kind().is_trivia()
            invariant
                start + 1 <= i <= children.len(),
                tree::views(children@) == self@.children(),
                forall|j: int| start < j < i ==> !Self::solid()(#[trigger] self@.children()[j]),
            decreases children.len() - i,
        {
            assert(self@.children()[i as int] == children@[i as int]@);
            i += 1;
        }
        proof {
            if i < children.len() {
                assert(self@.children()[i as int] == children@[i as int]@);
            }
            tree::first_is(self@.children(), start + 1, Self::solid(), i as int);
        }
        let end = if i < children.len() && children[i].kind() == SyntaxKind::COMMA {
            i
        } else {
            start
        };
        proof {
            algo::child_fits(self@, start as int);
            algo::child_fits(self@, end as int);
        }
        let range = syntax.child(start)..=syntax.child(end);
        let to_insert: Vec<SyntaxElement> = Vec::new();
        let r = self.replace_children(range, to_insert);
        proof {
            let none = syntax_node::parts(to_insert@);
            let old = self@.children();
            assert(none =~= Seq::<Tree>::empty());
            assert(algo::replaced(old, start as int, end as int, none) =~= old.take(start as int)
                + old.skip(end + 1));
            assert(old.take(start as int) + old.skip(start + 1) =~= old.remove(start as int));
            let marks = marks_at(*self).children();
            let no_marks = syntax_node::part_marks(to_insert@);
            assert(no_marks =~= Seq::<Marks>::empty());
            assert(algo::replaced(marks, start as int, end as int, no_marks) =~= marks.take(
                start as int,
            ) + marks.skip(end + 1));
            assert(marks.take(start as int) + marks.skip(start + 1) =~= marks.remove(
                start as int,
            ));
        }
        r
    }

    /// The list with the arm `item` at its end.
    #[must_use]
    pub fn append_arm(&self, item: MatchArm) -> (r: MatchArmList)
        ensures
            r@ == Self::with_arm(self@, item@.here()),
            marks_become(
                *self,
                r,
                Self::with_arm_marks(self@, marks_at(*self).children(), marks_at(item)),
            ),
            self@.is_node(),
    {
        let syntax = self.syntax();
        let r_curly = find_kind(syntax, 0, SyntaxKind::R_CURLY);
        let count = syntax.children().len();
        assert(count == self@.children().len());
        if r_curly == count {
            return self.clone();
        }
        proof {
            algo::child_fits(self@, r_curly as int);
        }
        let position = InsertPosition::Before(syntax.child(r_curly));
        let arm_ws = make::whitespace("    ".to_owned());
        let mut text = "\n".to_owned();
        text.append(indent::indent_or_empty(syntax).as_str());
        let match_ws = make::whitespace(text);
        let mut to_insert = buffer::new();
        buffer::push(&mut to_insert, NodeOrToken::Token(arm_ws));
        buffer::push(&mut to_insert, NodeOrToken::Node(item.syntax().clone()));
        buffer::push(&mut to_insert, NodeOrToken::Token(match_ws));
        assert(syntax_node::parts(buffer::held(to_insert)) =~= seq![
            make::blank("    "@),
            item@.here(),
            make::blank("\n"@ + indent::indent_at(self@)),
        ]);
        assert(syntax_node::part_marks(buffer::held(to_insert)) =~= seq![
            Marks::Token,
            marks_at(item),
            Marks::Token,
        ]);
        self.insert_children(position, buffer::into_vec(to_insert))
    }
}

/// Attributes and comments.
pub open spec fn decorations() -> spec_fn(Tree) -> bool {
    |tree: Tree| tree.kind() == SyntaxKind::ATTR || tree.kind() == SyntaxKind::COMMENT
}

/// `children` without the attributes and comments, and without the whitespace that directly
/// follows one.
pub open spec fn undecorated(children: Seq<Tree>) -> Seq<Tree>
    decreases children.len(),
{
    if children.len() == 0 {
        Seq::empty()
    } else if !decorations()(children[0]) {
        seq![children[0]] + undecorated(children.skip(1))
    } else if children.len() > 1 && children[1].kind() == SyntaxKind::WHITESPACE {
        undecorated(children.skip(2))
    } else {
        undecorated(children.skip(1))
    }
}

/// Those of `marks` that are left, where they belong to `children`.
pub open spec fn undecorated_marks(children: Seq<Tree>, marks: Seq<Marks>) -> Seq<Marks>
    decreases children.len(),
{
    if children.len() == 0 {
        Seq::empty()
    } else if !decorations()(children[0]) {
        seq![marks[0]] + undecorated_marks(children.skip(1), marks.skip(1))
    } else if children.len() > 1 && children[1].kind() == SyntaxKind::WHITESPACE {
        undecorated_marks(children.skip(2), marks.skip(2))
    } else {
        undecorated_marks(children.skip(1), marks.skip(1))
    }
}

/// What precedes the first attribute or comment stays.
proof fn undecorated_prefix(children: Seq<Tree>, marks: Seq<Marks>, i: int)
    requires
        0 <= i <= children.len() == marks.len(),
        forall|j: int| 0 <= j < i ==> !decorations()(#[trigger] children[j]),
    ensures
        undecorated(children) == children.take(i) + undecorated(children.skip(i)),
        undecorated_marks(children, marks) == marks.take(i) + undecorated_marks(
            children.skip(i),
            marks.skip(i),
        ),
    decreases i,
{
    if i == 0 {
        assert(children.skip(0) =~= children);
        assert(marks.skip(0) =~= marks);
        assert(children.take(0) + undecorated(children) =~= undecorated(children));
        assert(marks.take(0) + undecorated_marks(children, marks) =~= undecorated_marks(
            children,
            marks,
        ));
    } else {
        let rest = children.skip(1);
        assert forall|j: int| 0 <= j < i - 1 implies !decorations()(#[trigger] rest[j]) by {
            assert(rest[j] == children[j + 1]);
        }
        let rest_marks = marks.skip(1);
        undecorated_prefix(rest, rest_marks, i - 1);
        assert(rest.skip(i - 1) =~= children.skip(i));
        assert(rest_marks.skip(i - 1) =~= marks.skip(i));
        assert(!decorations()(children[0]));
        assert(undecorated(children) == seq![children[0]] + undecorated(rest));
        assert(seq![children[0]] + (rest.take(i - 1) + undecorated(rest.skip(i - 1)))
            =~= children.take(i) + undecorated(children.skip(i)));
        let left = undecorated_marks(rest.skip(i - 1), rest_marks.skip(i - 1));
        assert(undecorated_marks(children, marks) == seq![marks[0]] + undecorated_marks(
            rest,
            rest_marks,
        ));
        assert(seq![marks[0]] + (rest_marks.take(i - 1) + left) =~= marks.take(i) + left);
    }
}

/// `node` without its attributes and doc comments.
#[must_use]
pub fn remove_attrs_and_docs<N: AttrsOwner>(node: &N) -> (r: N)
    ensures
        r@ == node@.with_children(undecorated(node@.children())),
        marks_become(
            *node,
            r,
            undecorated_marks(node@.children(), marks_at(*node).children()),
        ),
{
    let syntax = remove_attrs_and_docs_inner(node.syntax().clone());
    proof {
        algo::with_children_keeps(node@, undecorated(node@.children()));
    }
    match N::cast(syntax) {
        Some(node) => node,
        None => unreached(),
    }
}

fn remove_attrs_and_docs_inner(node: SyntaxNode) -> (r: SyntaxNode)
    ensures
        r@ == node@.with_children(undecorated(node@.children())),
        syntax_node::marks_edited(
            node@,
            node.marks(),
            r.marks(),
            undecorated_marks(node@.children(), node.marks().at(node@.path).children()),
        ),
        node@.is_node(),
{
    let mut res = node.clone();
    proof {
        tree::put_same(node@.tree, node@.path);
    }
    let ghost goal = undecorated_marks(
        node@.children(),
        node.marks().at(node@.path).children(),
    );
    loop
        invariant
            node@.is_node(),
            res@.is_node(),
            res@ == node@.with_children(res@.children()),
            undecorated(res@.children()) == undecorated(node@.children()),
            syntax_node::marks_edited(
                node@,
                node.marks(),
                res.marks(),
                res.marks().at(res@.path).children(),
            ),
            undecorated_marks(res@.children(), res.marks().at(res@.path).children()) == goal,
            goal == undecorated_marks(
                node@.children(),
                node.marks().at(node@.path).children(),
            ),
        decreases res@.children().len(),
    {
        let children = res.children();
        let ghost old = res@.children();
        let ghost marks = res.marks().at(res@.path).children();
        assert(marks.len() == old.len());
        let mut i: usize = 0;
        while i < children.len() && children[i].kind() != SyntaxKind::ATTR && children[i].kind()
            != SyntaxKind::COMMENT
            invariant
                i <= children.len(),
                old == res@.children(),
                tree::views(children@) == old,
                forall|j: int| 0 <= j < i ==> !decorations()(#[trigger] old[j]),
            decreases children.len() - i,
        {
            assert(old[i as int] == children@[i as int]@);
            i += 1;
        }
        proof {
            undecorated_prefix(old, marks, i as int);
        }
        if i == children.len() {
            assert(old.skip(i as int) =~= Seq::<Tree>::empty());
            assert(old.take(i as int) + Seq::<Tree>::empty() =~= old);
            assert(marks.take(i as int) + Seq::<Marks>::empty() =~= marks);
            return res;
        }
        assert(old[i as int] == children@[i as int]@);
        let end = if i + 1 < children.len() && children[i + 1].kind() == SyntaxKind::WHITESPACE {
            i + 1
        } else {
            i
        };
        proof {
            algo::child_fits(res@, i as int);
            algo::child_fits(res@, end as int);
            let rest = old.skip(i as int);
            assert(rest[0] == old[i as int]);
            if i + 1 < old.len() {
                assert(rest[1] == old[i + 1]);
                assert(old[i + 1] == children@[i + 1]@);
            }
            assert(rest.skip(end + 1 - i) =~= old.skip(end + 1));
            assert(undecorated(rest) == undecorated(old.skip(end + 1)));
            let rest_marks = marks.skip(i as int);
            assert(rest_marks.skip(end + 1 - i) =~= marks.skip(end + 1));
            assert(undecorated_marks(rest, rest_marks) == undecorated_marks(
                old.skip(end + 1),
                marks.skip(end + 1),
            ));
            let new_marks = marks.take(i as int) + marks.skip(end + 1);
            assert(algo::replaced(marks, i as int, end as int, Seq::<Marks>::empty())
                =~= new_marks);
            let new = old.take(i as int) + old.skip(end + 1);
            assert(algo::replaced(old, i as int, end as int, Seq::<Tree>::empty()) =~= new);
            assert forall|j: int| 0 <= j < i implies !decorations()(#[trigger] new[j]) by {
                assert(new[j] == old[j]);
            }
            undecorated_prefix(new, new_marks, i as int);
            assert(new_marks.take(i as int) =~= marks.take(i as int));
            assert(new_marks.skip(i as int) =~= marks.skip(end + 1));
            assert(new.take(i as int) =~= old.take(i as int));
            assert(new.skip(i as int) =~= old.skip(end + 1));
            algo::with_children_keeps(node@, old);
            algo::with_children_keeps(node@, new);
            tree::put_twice(
                node@.tree,
                node@.path,
                Tree::Node(node@.kind(), old),
                Tree::Node(node@.kind(), new),
            );
        }
        let range = res.child(i)..=res.child(end);
        let to_insert: Vec<SyntaxElement> = Vec::new();
        assert(syntax_node::parts(to_insert@) =~= Seq::<Tree>::empty());
        assert(syntax_node::part_marks(to_insert@) =~= Seq::<Marks>::empty());
        let changed = algo::replace_children(&res, range, to_insert);
        proof {
            syntax_node::marks_edited_twice(
                node@,
                old,
                node.marks(),
                res.marks(),
                changed.marks(),
                marks,
                changed.marks().at(changed@.path).children(),
            );
        }
        res = changed;
    }
}

} // verus!
