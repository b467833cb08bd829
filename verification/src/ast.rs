//! Syntax nodes by what they are.
use vstd::prelude::*;

use crate::stamp::Marks;
use crate::syntax_kind::SyntaxKind;
use crate::syntax_node;
use crate::syntax_node::{NodeOrToken, Place, SyntaxNode, SyntaxToken};
use crate::tree;
use crate::tree::Tree;

verus! {

/// A syntax node that is known to be of certain kinds.
pub trait AstNode: Sized + View<V = Place> {
    /// The kinds that a node of this type can have.
    spec fn accepts(kind: SyntaxKind) -> bool;

    /// The stamps of the whole tree that the node stands in.
    spec fn marks(&self) -> Marks;

    fn can_cast(kind: SyntaxKind) -> (r: bool)
        ensures
            r == Self::accepts(kind),
    ;

    /// `syntax` as a node of this type, where its kind allows it.
    fn cast(syntax: SyntaxNode) -> (r: Option<Self>)
        ensures
            r is Some <==> Self::accepts(syntax@.kind()),
            r matches Some(node) ==> node@ == syntax@ && node.marks() == syntax.marks(),
            syntax@.is_node(),
    ;

    fn syntax(&self) -> (r: &SyntaxNode)
        ensures
            r@ == self@,
            r.marks() == self.marks(),
            self.marks().at(self@.path).children().len() == self@.children().len(),
            self@.is_node(),
            Self::accepts(self@.kind()),
    ;
}

/// A node that attributes and doc comments can precede.
pub trait AttrsOwner: AstNode {

}


/// A binary expression.
#[derive(Debug)]
pub struct BinExpr {
    syntax: SyntaxNode,
}

impl View for BinExpr {
    type V = Place;

    closed spec fn view(&self) -> Place {
        self.syntax@
    }
}

impl BinExpr {
    /// The kind is one of those of this type.
    #[verifier::type_invariant]
    pub open spec fn inv(self) -> bool {
        <Self as AstNode>::accepts(self@.kind())
    }
}

impl Clone for BinExpr {
    fn clone(&self) -> (r: Self)
        ensures
            r@ == self@,
            r.marks() == self.marks(),
            self@.is_node(),
            Self::accepts(self@.kind()),
    {
        proof {
            use_type_invariant(self);
        }
        BinExpr { syntax: self.syntax.clone() }
    }
}

impl AstNode for BinExpr {
    open spec fn accepts(kind: SyntaxKind) -> bool {
        kind == SyntaxKind::BIN_EXPR
    }

    closed spec fn marks(&self) -> Marks {
        self.syntax.marks()
    }

    fn can_cast(kind: SyntaxKind) -> (r: bool) {
        kind == SyntaxKind::BIN_EXPR
    }

    fn cast(syntax: SyntaxNode) -> (r: Option<Self>) {
        if Self::can_cast(syntax.kind()) {
            Some(BinExpr { syntax })
        } else {
            None
        }
    }

    fn syntax(&self) -> (r: &SyntaxNode) {
        proof {
            use_type_invariant(self);
            use_type_invariant(&self.syntax);
            syntax_node::child_marks_fit(&self.syntax);
        }
        &self.syntax
    }
}

/// The fields of a record expression, in curly brackets.
#[derive(Debug)]
pub struct RecordExprFieldList {
    syntax: SyntaxNode,
}

impl View for RecordExprFieldList {
    type V = Place;

    closed spec fn view(&self) -> Place {
        self.syntax@
    }
}

impl RecordExprFieldList {
    /// The kind is one of those of this type.
    #[verifier::type_invariant]
    pub open spec fn inv(self) -> bool {
        <Self as AstNode>::accepts(self@.kind())
    }
}

impl Clone for RecordExprFieldList {
    fn clone(&self) -> (r: Self)
        ensures
            r@ == self@,
            r.marks() == self.marks(),
            self@.is_node(),
            Self::accepts(self@.kind()),
    {
        proof {
            use_type_invariant(self);
        }
        RecordExprFieldList { syntax: self.syntax.clone() }
    }
}

impl AstNode for RecordExprFieldList {
    open spec fn accepts(kind: SyntaxKind) -> bool {
        kind == SyntaxKind::RECORD_EXPR_FIELD_LIST
    }

    closed spec fn marks(&self) -> Marks {
        self.syntax.marks()
    }

    fn can_cast(kind: SyntaxKind) -> (r: bool) {
        kind == SyntaxKind::RECORD_EXPR_FIELD_LIST
    }

    fn cast(syntax: SyntaxNode) -> (r: Option<Self>) {
        if Self::can_cast(syntax.kind()) {
            Some(RecordExprFieldList { syntax })
        } else {
            None
        }
    }

    fn syntax(&self) -> (r: &SyntaxNode) {
        proof {
            use_type_invariant(self);
            use_type_invariant(&self.syntax);
            syntax_node::child_marks_fit(&self.syntax);
        }
        &self.syntax
    }
}

/// A field of a record expression.
#[derive(Debug)]
pub struct RecordExprField {
    syntax: SyntaxNode,
}

impl View for RecordExprField {
    type V = Place;

    closed spec fn view(&self) -> Place {
        self.syntax@
    }
}

impl RecordExprField {
    /// The kind is one of those of this type.
    #[verifier::type_invariant]
    pub open spec fn inv(self) -> bool {
        <Self as AstNode>::accepts(self@.kind())
    }
}

impl Clone for RecordExprField {
    fn clone(&self) -> (r: Self)
        ensures
            r@ == self@,
            r.marks() == self.marks(),
            self@.is_node(),
            Self::accepts(self@.kind()),
    {
        proof {
            use_type_invariant(self);
        }
        RecordExprField { syntax: self.syntax.clone() }
    }
}

impl AstNode for RecordExprField {
    open spec fn accepts(kind: SyntaxKind) -> bool {
        kind == SyntaxKind::RECORD_EXPR_FIELD
    }

    closed spec fn marks(&self) -> Marks {
        self.syntax.marks()
    }

    fn can_cast(kind: SyntaxKind) -> (r: bool) {
        kind == SyntaxKind::RECORD_EXPR_FIELD
    }

    fn cast(syntax: SyntaxNode) -> (r: Option<Self>) {
        if Self::can_cast(syntax.kind()) {
            Some(RecordExprField { syntax })
        } else {
            None
        }
    }

    fn syntax(&self) -> (r: &SyntaxNode) {
        proof {
            use_type_invariant(self);
            use_type_invariant(&self.syntax);
            syntax_node::child_marks_fit(&self.syntax);
        }
        &self.syntax
    }
}

/// A path: perhaps a shorter path that qualifies it, and a segment.
#[derive(Debug)]
pub struct Path {
    syntax: SyntaxNode,
}

impl View for Path {
    type V = Place;

    closed spec fn view(&self) -> Place {
        self.syntax@
    }
}

impl Path {
    /// The kind is one of those of this type.
    #[verifier::type_invariant]
    pub open spec fn inv(self) -> bool {
        <Self as AstNode>::accepts(self@.kind())
    }
}

impl Clone for Path {
    fn clone(&self) -> (r: Self)
        ensures
            r@ == self@,
            r.marks() == self.marks(),
            self@.is_node(),
            Self::accepts(self@.kind()),
    {
        proof {
            use_type_invariant(self);
        }
        Path { syntax: self.syntax.clone() }
    }
}

impl AstNode for Path {
    open spec fn accepts(kind: SyntaxKind) -> bool {
        kind == SyntaxKind::PATH
    }

    closed spec fn marks(&self) -> Marks {
        self.syntax.marks()
    }

    fn can_cast(kind: SyntaxKind) -> (r: bool) {
        kind == SyntaxKind::PATH
    }

    fn cast(syntax: SyntaxNode) -> (r: Option<Self>) {
        if Self::can_cast(syntax.kind()) {
            Some(Path { syntax })
        } else {
            None
        }
    }

    fn syntax(&self) -> (r: &SyntaxNode) {
        proof {
            use_type_invariant(self);
            use_type_invariant(&self.syntax);
            syntax_node::child_marks_fit(&self.syntax);
        }
        &self.syntax
    }
}

/// A segment of a path.
#[derive(Debug)]
pub struct PathSegment {
    syntax: SyntaxNode,
}

impl View for PathSegment {
    type V = Place;

    closed spec fn view(&self) -> Place {
        self.syntax@
    }
}

impl PathSegment {
    /// The kind is one of those of this type.
    #[verifier::type_invariant]
    pub open spec fn inv(self) -> bool {
        <Self as AstNode>::accepts(self@.kind())
    }
}

impl Clone for PathSegment {
    fn clone(&self) -> (r: Self)
        ensures
            r@ == self@,
            r.marks() == self.marks(),
            self@.is_node(),
            Self::accepts(self@.kind()),
    {
        proof {
            use_type_invariant(self);
        }
        PathSegment { syntax: self.syntax.clone() }
    }
}

impl AstNode for PathSegment {
    open spec fn accepts(kind: SyntaxKind) -> bool {
        kind == SyntaxKind::PATH_SEGMENT
    }

    closed spec fn marks(&self) -> Marks {
        self.syntax.marks()
    }

    fn can_cast(kind: SyntaxKind) -> (r: bool) {
        kind == SyntaxKind::PATH_SEGMENT
    }

    fn cast(syntax: SyntaxNode) -> (r: Option<Self>) {
        if Self::can_cast(syntax.kind()) {
            Some(PathSegment { syntax })
        } else {
            None
        }
    }

    fn syntax(&self) -> (r: &SyntaxNode) {
        proof {
            use_type_invariant(self);
            use_type_invariant(&self.syntax);
            syntax_node::child_marks_fit(&self.syntax);
        }
        &self.syntax
    }
}

/// Generic arguments, in angle brackets.
#[derive(Debug)]
pub struct GenericArgList {
    syntax: SyntaxNode,
}

impl View for GenericArgList {
    type V = Place;

    closed spec fn view(&self) -> Place {
        self.syntax@
    }
}

impl GenericArgList {
    /// The kind is one of those of this type.
    #[verifier::type_invariant]
    pub open spec fn inv(self) -> bool {
        <Self as AstNode>::accepts(self@.kind())
    }
}

impl Clone for GenericArgList {
    fn clone(&self) -> (r: Self)
        ensures
            r@ == self@,
            r.marks() == self.marks(),
            self@.is_node(),
            Self::accepts(self@.kind()),
    {
        proof {
            use_type_invariant(self);
        }
        GenericArgList { syntax: self.syntax.clone() }
    }
}

impl AstNode for GenericArgList {
    open spec fn accepts(kind: SyntaxKind) -> bool {
        kind == SyntaxKind::GENERIC_ARG_LIST
    }

    closed spec fn marks(&self) -> Marks {
        self.syntax.marks()
    }

    fn can_cast(kind: SyntaxKind) -> (r: bool) {
        kind == SyntaxKind::GENERIC_ARG_LIST
    }

    fn cast(syntax: SyntaxNode) -> (r: Option<Self>) {
        if Self::can_cast(syntax.kind()) {
            Some(GenericArgList { syntax })
        } else {
            None
        }
    }

    fn syntax(&self) -> (r: &SyntaxNode) {
        proof {
            use_type_invariant(self);
            use_type_invariant(&self.syntax);
            syntax_node::child_marks_fit(&self.syntax);
        }
        &self.syntax
    }
}

/// A name where it is used.
#[derive(Debug)]
pub struct NameRef {
    syntax: SyntaxNode,
}

impl View for NameRef {
    type V = Place;

    closed spec fn view(&self) -> Place {
        self.syntax@
    }
}

impl NameRef {
    /// The kind is one of those of this type.
    #[verifier::type_invariant]
    pub open spec fn inv(self) -> bool {
        <Self as AstNode>::accepts(self@.kind())
    }
}

impl Clone for NameRef {
    fn clone(&self) -> (r: Self)
        ensures
            r@ == self@,
            r.marks() == self.marks(),
            self@.is_node(),
            Self::accepts(self@.kind()),
    {
        proof {
            use_type_invariant(self);
        }
        NameRef { syntax: self.syntax.clone() }
    }
}

impl AstNode for NameRef {
    open spec fn accepts(kind: SyntaxKind) -> bool {
        kind == SyntaxKind::NAME_REF
    }

    closed spec fn marks(&self) -> Marks {
        self.syntax.marks()
    }

    fn can_cast(kind: SyntaxKind) -> (r: bool) {
        kind == SyntaxKind::NAME_REF
    }

    fn cast(syntax: SyntaxNode) -> (r: Option<Self>) {
        if Self::can_cast(syntax.kind()) {
            Some(NameRef { syntax })
        } else {
            None
        }
    }

    fn syntax(&self) -> (r: &SyntaxNode) {
        proof {
            use_type_invariant(self);
            use_type_invariant(&self.syntax);
            syntax_node::child_marks_fit(&self.syntax);
        }
        &self.syntax
    }
}

/// A `use` item.
#[derive(Debug)]
pub struct Use {
    syntax: SyntaxNode,
}

impl View for Use {
    type V = Place;

    closed spec fn view(&self) -> Place {
        self.syntax@
    }
}

impl Use {
    /// The kind is one of those of this type.
    #[verifier::type_invariant]
    pub open spec fn inv(self) -> bool {
        <Self as AstNode>::accepts(self@.kind())
    }
}

impl Clone for Use {
    fn clone(&self) -> (r: Self)
        ensures
            r@ == self@,
            r.marks() == self.marks(),
            self@.is_node(),
            Self::accepts(self@.kind()),
    {
        proof {
            use_type_invariant(self);
        }
        Use { syntax: self.syntax.clone() }
    }
}

impl AstNode for Use {
    open spec fn accepts(kind: SyntaxKind) -> bool {
        kind == SyntaxKind::USE
    }

    closed spec fn marks(&self) -> Marks {
        self.syntax.marks()
    }

    fn can_cast(kind: SyntaxKind) -> (r: bool) {
        kind == SyntaxKind::USE
    }

    fn cast(syntax: SyntaxNode) -> (r: Option<Self>) {
        if Self::can_cast(syntax.kind()) {
            Some(Use { syntax })
        } else {
            None
        }
    }

    fn syntax(&self) -> (r: &SyntaxNode) {
        proof {
            use_type_invariant(self);
            use_type_invariant(&self.syntax);
            syntax_node::child_marks_fit(&self.syntax);
        }
        &self.syntax
    }
}

/// What a `use` item imports.
#[derive(Debug)]
pub struct UseTree {
    syntax: SyntaxNode,
}

impl View for UseTree {
    type V = Place;

    closed spec fn view(&self) -> Place {
        self.syntax@
    }
}

impl UseTree {
    /// The kind is one of those of this type.
    #[verifier::type_invariant]
    pub open spec fn inv(self) -> bool {
        <Self as AstNode>::accepts(self@.kind())
    }
}

impl Clone for UseTree {
    fn clone(&self) -> (r: Self)
        ensures
            r@ == self@,
            r.marks() == self.marks(),
            self@.is_node(),
            Self::accepts(self@.kind()),
    {
        proof {
            use_type_invariant(self);
        }
        UseTree { syntax: self.syntax.clone() }
    }
}

impl AstNode for UseTree {
    open spec fn accepts(kind: SyntaxKind) -> bool {
        kind == SyntaxKind::USE_TREE
    }

    closed spec fn marks(&self) -> Marks {
        self.syntax.marks()
    }

    fn can_cast(kind: SyntaxKind) -> (r: bool) {
        kind == SyntaxKind::USE_TREE
    }

    fn cast(syntax: SyntaxNode) -> (r: Option<Self>) {
        if Self::can_cast(syntax.kind()) {
            Some(UseTree { syntax })
        } else {
            None
        }
    }

    fn syntax(&self) -> (r: &SyntaxNode) {
        proof {
            use_type_invariant(self);
            use_type_invariant(&self.syntax);
            syntax_node::child_marks_fit(&self.syntax);
        }
        &self.syntax
    }
}

/// Use trees, in curly brackets.
#[derive(Debug)]
pub struct UseTreeList {
    syntax: SyntaxNode,
}

impl View for UseTreeList {
    type V = Place;

    closed spec fn view(&self) -> Place {
        self.syntax@
    }
}

impl UseTreeList {
    /// The kind is one of those of this type.
    #[verifier::type_invariant]
    pub open spec fn inv(self) -> bool {
        <Self as AstNode>::accepts(self@.kind())
    }
}

impl Clone for UseTreeList {
    fn clone(&self) -> (r: Self)
        ensures
            r@ == self@,
            r.marks() == self.marks(),
            self@.is_node(),
            Self::accepts(self@.kind()),
    {
        proof {
            use_type_invariant(self);
        }
        UseTreeList { syntax: self.syntax.clone() }
    }
}

impl AstNode for UseTreeList {
    open spec fn accepts(kind: SyntaxKind) -> bool {
        kind == SyntaxKind::USE_TREE_LIST
    }

    closed spec fn marks(&self) -> Marks {
        self.syntax.marks()
    }

    fn can_cast(kind: SyntaxKind) -> (r: bool) {
        kind == SyntaxKind::USE_TREE_LIST
    }

    fn cast(syntax: SyntaxNode) -> (r: Option<Self>) {
        if Self::can_cast(syntax.kind()) {
            Some(UseTreeList { syntax })
        } else {
            None
        }
    }

    fn syntax(&self) -> (r: &SyntaxNode) {
        proof {
            use_type_invariant(self);
            use_type_invariant(&self.syntax);
            syntax_node::child_marks_fit(&self.syntax);
        }
        &self.syntax
    }
}

/// `as` and a name.
#[derive(Debug)]
pub struct Rename {
    syntax: SyntaxNode,
}

impl View for Rename {
    type V = Place;

    closed spec fn view(&self) -> Place {
        self.syntax@
    }
}

impl Rename {
    /// The kind is one of those of this type.
    #[verifier::type_invariant]
    pub open spec fn inv(self) -> bool {
        <Self as AstNode>::accepts(self@.kind())
    }
}

impl Clone for Rename {
    fn clone(&self) -> (r: Self)
        ensures
            r@ == self@,
            r.marks() == self.marks(),
            self@.is_node(),
            Self::accepts(self@.kind()),
    {
        proof {
            use_type_invariant(self);
        }
        Rename { syntax: self.syntax.clone() }
    }
}

impl AstNode for Rename {
    open spec fn accepts(kind: SyntaxKind) -> bool {
        kind == SyntaxKind::RENAME
    }

    closed spec fn marks(&self) -> Marks {
        self.syntax.marks()
    }

    fn can_cast(kind: SyntaxKind) -> (r: bool) {
        kind == SyntaxKind::RENAME
    }

    fn cast(syntax: SyntaxNode) -> (r: Option<Self>) {
        if Self::can_cast(syntax.kind()) {
            Some(Rename { syntax })
        } else {
            None
        }
    }

    fn syntax(&self) -> (r: &SyntaxNode) {
        proof {
            use_type_invariant(self);
            use_type_invariant(&self.syntax);
            syntax_node::child_marks_fit(&self.syntax);
        }
        &self.syntax
    }
}

/// The arms of a `match`, in curly brackets.
#[derive(Debug)]
pub struct MatchArmList {
    syntax: SyntaxNode,
}

impl View for MatchArmList {
    type V = Place;

    closed spec fn view(&self) -> Place {
        self.syntax@
    }
}

impl MatchArmList {
    /// The kind is one of those of this type.
    #[verifier::type_invariant]
    pub open spec fn inv(self) -> bool {
        <Self as AstNode>::accepts(self@.kind())
    }
}

impl Clone for MatchArmList {
    fn clone(&self) -> (r: Self)
        ensures
            r@ == self@,
            r.marks() == self.marks(),
            self@.is_node(),
            Self::accepts(self@.kind()),
    {
        proof {
            use_type_invariant(self);
        }
        MatchArmList { syntax: self.syntax.clone() }
    }
}

impl AstNode for MatchArmList {
    open spec fn accepts(kind: SyntaxKind) -> bool {
        kind == SyntaxKind::MATCH_ARM_LIST
    }

    closed spec fn marks(&self) -> Marks {
        self.syntax.marks()
    }

    fn can_cast(kind: SyntaxKind) -> (r: bool) {
        kind == SyntaxKind::MATCH_ARM_LIST
    }

    fn cast(syntax: SyntaxNode) -> (r: Option<Self>) {
        if Self::can_cast(syntax.kind()) {
            Some(MatchArmList { syntax })
        } else {
            None
        }
    }

    fn syntax(&self) -> (r: &SyntaxNode) {
        proof {
            use_type_invariant(self);
            use_type_invariant(&self.syntax);
            syntax_node::child_marks_fit(&self.syntax);
        }
        &self.syntax
    }
}

/// An arm of a `match`.
#[derive(Debug)]
pub struct MatchArm {
    syntax: SyntaxNode,
}

impl View for MatchArm {
    type V = Place;

    closed spec fn view(&self) -> Place {
        self.syntax@
    }
}

impl MatchArm {
    /// The kind is one of those of this type.
    #[verifier::type_invariant]
    pub open spec fn inv(self) -> bool {
        <Self as AstNode>::accepts(self@.kind())
    }
}

impl Clone for MatchArm {
    fn clone(&self) -> (r: Self)
        ensures
            r@ == self@,
            r.marks() == self.marks(),
            self@.is_node(),
            Self::accepts(self@.kind()),
    {
        proof {
            use_type_invariant(self);
        }
        MatchArm { syntax: self.syntax.clone() }
    }
}

impl AstNode for MatchArm {
    open spec fn accepts(kind: SyntaxKind) -> bool {
        kind == SyntaxKind::MATCH_ARM
    }

    closed spec fn marks(&self) -> Marks {
        self.syntax.marks()
    }

    fn can_cast(kind: SyntaxKind) -> (r: bool) {
        kind == SyntaxKind::MATCH_ARM
    }

    fn cast(syntax: SyntaxNode) -> (r: Option<Self>) {
        if Self::can_cast(syntax.kind()) {
            Some(MatchArm { syntax })
        } else {
            None
        }
    }

    fn syntax(&self) -> (r: &SyntaxNode) {
        proof {
            use_type_invariant(self);
            use_type_invariant(&self.syntax);
            syntax_node::child_marks_fit(&self.syntax);
        }
        &self.syntax
    }
}

/// A pattern.
#[derive(Debug)]
pub struct Pat {
    syntax: SyntaxNode,
}

impl View for Pat {
    type V = Place;

    closed spec fn view(&self) -> Place {
        self.syntax@
    }
}

impl Pat {
    /// The kind is one of those of this type.
    #[verifier::type_invariant]
    pub open spec fn inv(self) -> bool {
        <Self as AstNode>::accepts(self@.kind())
    }
}

impl Clone for Pat {
    fn clone(&self) -> (r: Self)
        ensures
            r@ == self@,
            r.marks() == self.marks(),
            self@.is_node(),
            Self::accepts(self@.kind()),
    {
        proof {
            use_type_invariant(self);
        }
        Pat { syntax: self.syntax.clone() }
    }
}

impl AstNode for Pat {
    open spec fn accepts(kind: SyntaxKind) -> bool {
        match kind {
            SyntaxKind::IDENT_PAT | SyntaxKind::BOX_PAT | SyntaxKind::REST_PAT |
            SyntaxKind::LITERAL_PAT | SyntaxKind::MACRO_PAT | SyntaxKind::OR_PAT |
            SyntaxKind::PAREN_PAT | SyntaxKind::PATH_PAT | SyntaxKind::WILDCARD_PAT |
            SyntaxKind::RANGE_PAT | SyntaxKind::RECORD_PAT | SyntaxKind::REF_PAT |
            SyntaxKind::SLICE_PAT | SyntaxKind::TUPLE_PAT | SyntaxKind::TUPLE_STRUCT_PAT |
            SyntaxKind::CONST_BLOCK_PAT => true,
            _ => false,
        }
    }

    closed spec fn marks(&self) -> Marks {
        self.syntax.marks()
    }

    fn can_cast(kind: SyntaxKind) -> (r: bool) {
        match kind {
            SyntaxKind::IDENT_PAT | SyntaxKind::BOX_PAT | SyntaxKind::REST_PAT |
            SyntaxKind::LITERAL_PAT | SyntaxKind::MACRO_PAT | SyntaxKind::OR_PAT |
            SyntaxKind::PAREN_PAT | SyntaxKind::PATH_PAT | SyntaxKind::WILDCARD_PAT |
            SyntaxKind::RANGE_PAT | SyntaxKind::RECORD_PAT | SyntaxKind::REF_PAT |
            SyntaxKind::SLICE_PAT | SyntaxKind::TUPLE_PAT | SyntaxKind::TUPLE_STRUCT_PAT |
            SyntaxKind::CONST_BLOCK_PAT => true,
            _ => false,
        }
    }

    fn cast(syntax: SyntaxNode) -> (r: Option<Self>) {
        if Self::can_cast(syntax.kind()) {
            Some(Pat { syntax })
        } else {
            None
        }
    }

    fn syntax(&self) -> (r: &SyntaxNode) {
        proof {
            use_type_invariant(self);
            use_type_invariant(&self.syntax);
            syntax_node::child_marks_fit(&self.syntax);
        }
        &self.syntax
    }
}

/// A tuple expression.
#[derive(Debug)]
pub struct TupleExpr {
    syntax: SyntaxNode,
}

impl View for TupleExpr {
    type V = Place;

    closed spec fn view(&self) -> Place {
        self.syntax@
    }
}

impl TupleExpr {
    /// The kind is one of those of this type.
    #[verifier::type_invariant]
    pub open spec fn inv(self) -> bool {
        <Self as AstNode>::accepts(self@.kind())
    }
}

impl Clone for TupleExpr {
    fn clone(&self) -> (r: Self)
        ensures
            r@ == self@,
            r.marks() == self.marks(),
            self@.is_node(),
            Self::accepts(self@.kind()),
    {
        proof {
            use_type_invariant(self);
        }
        TupleExpr { syntax: self.syntax.clone() }
    }
}

impl AstNode for TupleExpr {
    open spec fn accepts(kind: SyntaxKind) -> bool {
        kind == SyntaxKind::TUPLE_EXPR
    }

    closed spec fn marks(&self) -> Marks {
        self.syntax.marks()
    }

    fn can_cast(kind: SyntaxKind) -> (r: bool) {
        kind == SyntaxKind::TUPLE_EXPR
    }

    fn cast(syntax: SyntaxNode) -> (r: Option<Self>) {
        if Self::can_cast(syntax.kind()) {
            Some(TupleExpr { syntax })
        } else {
            None
        }
    }

    fn syntax(&self) -> (r: &SyntaxNode) {
        proof {
            use_type_invariant(self);
            use_type_invariant(&self.syntax);
            syntax_node::child_marks_fit(&self.syntax);
        }
        &self.syntax
    }
}

/// A module.
#[derive(Debug)]
pub struct Module {
    syntax: SyntaxNode,
}

impl View for Module {
    type V = Place;

    closed spec fn view(&self) -> Place {
        self.syntax@
    }
}

impl Module {
    /// The kind is one of those of this type.
    #[verifier::type_invariant]
    pub open spec fn inv(self) -> bool {
        <Self as AstNode>::accepts(self@.kind())
    }
}

impl Clone for Module {
    fn clone(&self) -> (r: Self)
        ensures
            r@ == self@,
            r.marks() == self.marks(),
            self@.is_node(),
            Self::accepts(self@.kind()),
    {
        proof {
            use_type_invariant(self);
        }
        Module { syntax: self.syntax.clone() }
    }
}

impl AstNode for Module {
    open spec fn accepts(kind: SyntaxKind) -> bool {
        kind == SyntaxKind::MODULE
    }

    closed spec fn marks(&self) -> Marks {
        self.syntax.marks()
    }

    fn can_cast(kind: SyntaxKind) -> (r: bool) {
        kind == SyntaxKind::MODULE
    }

    fn cast(syntax: SyntaxNode) -> (r: Option<Self>) {
        if Self::can_cast(syntax.kind()) {
            Some(Module { syntax })
        } else {
            None
        }
    }

    fn syntax(&self) -> (r: &SyntaxNode) {
        proof {
            use_type_invariant(self);
            use_type_invariant(&self.syntax);
            syntax_node::child_marks_fit(&self.syntax);
        }
        &self.syntax
    }
}

/// The items of a module, in curly brackets.
#[derive(Debug)]
pub struct ItemList {
    syntax: SyntaxNode,
}

impl View for ItemList {
    type V = Place;

    closed spec fn view(&self) -> Place {
        self.syntax@
    }
}

impl ItemList {
    /// The kind is one of those of this type.
    #[verifier::type_invariant]
    pub open spec fn inv(self) -> bool {
        <Self as AstNode>::accepts(self@.kind())
    }
}

impl Clone for ItemList {
    fn clone(&self) -> (r: Self)
        ensures
            r@ == self@,
            r.marks() == self.marks(),
            self@.is_node(),
            Self::accepts(self@.kind()),
    {
        proof {
            use_type_invariant(self);
        }
        ItemList { syntax: self.syntax.clone() }
    }
}

impl AstNode for ItemList {
    open spec fn accepts(kind: SyntaxKind) -> bool {
        kind == SyntaxKind::ITEM_LIST
    }

    closed spec fn marks(&self) -> Marks {
        self.syntax.marks()
    }

    fn can_cast(kind: SyntaxKind) -> (r: bool) {
        kind == SyntaxKind::ITEM_LIST
    }

    fn cast(syntax: SyntaxNode) -> (r: Option<Self>) {
        if Self::can_cast(syntax.kind()) {
            Some(ItemList { syntax })
        } else {
            None
        }
    }

    fn syntax(&self) -> (r: &SyntaxNode) {
        proof {
            use_type_invariant(self);
            use_type_invariant(&self.syntax);
            syntax_node::child_marks_fit(&self.syntax);
        }
        &self.syntax
    }
}

/// A whole file.
#[derive(Debug)]
pub struct SourceFile {
    syntax: SyntaxNode,
}

impl View for SourceFile {
    type V = Place;

    closed spec fn view(&self) -> Place {
        self.syntax@
    }
}

impl SourceFile {
    /// The kind is one of those of this type.
    #[verifier::type_invariant]
    pub open spec fn inv(self) -> bool {
        <Self as AstNode>::accepts(self@.kind())
    }
}

impl Clone for SourceFile {
    fn clone(&self) -> (r: Self)
        ensures
            r@ == self@,
            r.marks() == self.marks(),
            self@.is_node(),
            Self::accepts(self@.kind()),
    {
        proof {
            use_type_invariant(self);
        }
        SourceFile { syntax: self.syntax.clone() }
    }
}

impl AstNode for SourceFile {
    open spec fn accepts(kind: SyntaxKind) -> bool {
        kind == SyntaxKind::SOURCE_FILE
    }

    closed spec fn marks(&self) -> Marks {
        self.syntax.marks()
    }

    fn can_cast(kind: SyntaxKind) -> (r: bool) {
        kind == SyntaxKind::SOURCE_FILE
    }

    fn cast(syntax: SyntaxNode) -> (r: Option<Self>) {
        if Self::can_cast(syntax.kind()) {
            Some(SourceFile { syntax })
        } else {
            None
        }
    }

    fn syntax(&self) -> (r: &SyntaxNode) {
        proof {
            use_type_invariant(self);
            use_type_invariant(&self.syntax);
            syntax_node::child_marks_fit(&self.syntax);
        }
        &self.syntax
    }
}

/// An attribute.
#[derive(Debug)]
pub struct Attr {
    syntax: SyntaxNode,
}

impl View for Attr {
    type V = Place;

    closed spec fn view(&self) -> Place {
        self.syntax@
    }
}

impl Attr {
    /// The kind is one of those of this type.
    #[verifier::type_invariant]
    pub open spec fn inv(self) -> bool {
        <Self as AstNode>::accepts(self@.kind())
    }
}

impl Clone for Attr {
    fn clone(&self) -> (r: Self)
        ensures
            r@ == self@,
            r.marks() == self.marks(),
            self@.is_node(),
            Self::accepts(self@.kind()),
    {
        proof {
            use_type_invariant(self);
        }
        Attr { syntax: self.syntax.clone() }
    }
}

impl AstNode for Attr {
    open spec fn accepts(kind: SyntaxKind) -> bool {
        kind == SyntaxKind::ATTR
    }

    closed spec fn marks(&self) -> Marks {
        self.syntax.marks()
    }

    fn can_cast(kind: SyntaxKind) -> (r: bool) {
        kind == SyntaxKind::ATTR
    }

    fn cast(syntax: SyntaxNode) -> (r: Option<Self>) {
        if Self::can_cast(syntax.kind()) {
            Some(Attr { syntax })
        } else {
            None
        }
    }

    fn syntax(&self) -> (r: &SyntaxNode) {
        proof {
            use_type_invariant(self);
            use_type_invariant(&self.syntax);
            syntax_node::child_marks_fit(&self.syntax);
        }
        &self.syntax
    }
}

impl AttrsOwner for RecordExprField {

}

impl AttrsOwner for Use {

}

impl AttrsOwner for MatchArmList {

}

impl AttrsOwner for MatchArm {

}

impl AttrsOwner for Module {

}

impl AttrsOwner for ItemList {

}

impl AttrsOwner for SourceFile {

}

impl AttrsOwner for BinExpr {

}

/// The places that optional nodes stand at.
pub open spec fn place_of<N: View<V = Place>>(node: Option<N>) -> Option<Place> {
    match node {
        Some(node) => Some(node@),
        None => None,
    }
}

/// Nodes of the type `N`.
pub open spec fn nodes_of<N: AstNode>() -> spec_fn(Tree) -> bool {
    |tree: Tree| tree is Node && N::accepts(tree.kind())
}

/// Tokens of one kind.
pub open spec fn tokens_of(kind: SyntaxKind) -> spec_fn(Tree) -> bool {
    |tree: Tree| tree is Token && tree.kind() == kind
}

/// Tokens that are binary operators.
pub open spec fn operators() -> spec_fn(Tree) -> bool {
    |tree: Tree| tree is Token && tree.kind().binary_operator()
}

/// The child of `place` with number `i`, where it has so many.
pub open spec fn nth_child(place: Place, i: int) -> Option<Place> {
    if 0 <= i < place.children().len() {
        Some(place.child(i))
    } else {
        None
    }
}

/// The first child that is of the type `N`.
pub open spec fn child_of<N: AstNode>(place: Place) -> Option<Place> {
    nth_child(place, tree::first(place.children(), 0, nodes_of::<N>()))
}

/// The first child that is a token of the kind `kind`.
pub open spec fn token_of(place: Place, kind: SyntaxKind) -> Option<Place> {
    nth_child(place, tree::first(place.children(), 0, tokens_of(kind)))
}

/// The first child of `parent` that is of the type `N`.
pub(crate) fn child<N: AstNode>(parent: &SyntaxNode) -> (r: Option<N>)
    ensures
        place_of(r) == child_of::<N>(parent@),
        r matches Some(node) ==> node@.is_node() && N::accepts(node@.kind()) && node.marks()
            == parent.marks(),
        parent@.is_node(),
{
    let children = parent.children();
    let mut i: usize = 0;
    while i < children.len()
        invariant
            i <= children.len(),
            tree::views(children@) == parent@.children(),
            forall|j: int|
                0 <= j < i ==> !nodes_of::<N>()(#[trigger] parent@.children()[j]),
        decreases children.len() - i,
    {
        assert(parent@.children()[i as int] == children@[i as int]@);
        if children[i].is_node() && N::can_cast(children[i].kind()) {
            proof {
                tree::first_is(parent@.children(), 0, nodes_of::<N>(), i as int);
                tree::path_step(parent@.tree, parent@.path, i as int);
            }
            return match parent.child(i) {
                NodeOrToken::Node(node) => N::cast(node),
                NodeOrToken::Token(_) => None,
            };
        }
        i += 1;
    }
    proof {
        tree::first_is(parent@.children(), 0, nodes_of::<N>(), i as int);
    }
    None
}

/// The first child of `parent` that is a token of the kind `kind`.
pub(crate) fn token(parent: &SyntaxNode, kind: SyntaxKind) -> (r: Option<SyntaxToken>)
    ensures
        place_of(r) == token_of(parent@, kind),
        parent@.is_node(),
{
    let children = parent.children();
    let mut i: usize = 0;
    while i < children.len()
        invariant
            i <= children.len(),
            tree::views(children@) == parent@.children(),
            forall|j: int| 0 <= j < i ==> !tokens_of(kind)(#[trigger] parent@.children()[j]),
        decreases children.len() - i,
    {
        assert(parent@.children()[i as int] == children@[i as int]@);
        if !children[i].is_node() && children[i].kind() == kind {
            proof {
                tree::first_is(parent@.children(), 0, tokens_of(kind), i as int);
                tree::path_step(parent@.tree, parent@.path, i as int);
            }
            return match parent.child(i) {
                NodeOrToken::Node(_) => None,
                NodeOrToken::Token(token) => Some(token),
            };
        }
        i += 1;
    }
    proof {
        tree::first_is(parent@.children(), 0, tokens_of(kind), i as int);
    }
    None
}

impl BinExpr {
    /// The operator.
    pub fn op_token(&self) -> (r: Option<SyntaxToken>)
        ensures
            place_of(r) == nth_child(self@, tree::first(self@.children(), 0, operators())),
    {
        let parent = self.syntax();
        let children = parent.children();
        let mut i: usize = 0;
        while i < children.len()
            invariant
                i <= children.len(),
                parent@ == self@,
                tree::views(children@) == self@.children(),
                forall|j: int| 0 <= j < i ==> !operators()(#[trigger] self@.children()[j]),
            decreases children.len() - i,
        {
            assert(self@.children()[i as int] == children@[i as int]@);
            if !children[i].is_node() && children[i].kind().is_binary_operator() {
                proof {
                    tree::first_is(self@.children(), 0, operators(), i as int);
                    tree::path_step(self@.tree, self@.path, i as int);
                }
                return match parent.child(i) {
                    NodeOrToken::Node(_) => None,
                    NodeOrToken::Token(token) => Some(token),
                };
            }
            i += 1;
        }
        proof {
            tree::first_is(self@.children(), 0, operators(), i as int);
        }
        None
    }
}

impl RecordExprFieldList {
    pub fn l_curly_token(&self) -> (r: Option<SyntaxToken>)
        ensures
            place_of(r) == token_of(self@, SyntaxKind::L_CURLY),
    {
        token(self.syntax(), SyntaxKind::L_CURLY)
    }

    /// The last of the fields.
    pub fn last_field(&self) -> (r: Option<RecordExprField>)
        ensures
            place_of(r) == nth_child(
                self@,
                tree::last(
                    self@.children(),
                    self@.children().len() as int,
                    nodes_of::<RecordExprField>(),
                ),
            ),
    {
        let parent = self.syntax();
        let children = parent.children();
        let mut i: usize = children.len();
        let ghost wanted = nodes_of::<RecordExprField>();
        while i > 0
            invariant
                i <= children.len(),
                parent@ == self@,
                tree::views(children@) == self@.children(),
                wanted == nodes_of::<RecordExprField>(),
                forall|j: int|
                    i <= j < children.len() ==> !wanted(#[trigger] self@.children()[j]),
            decreases i,
        {
            i -= 1;
            assert(self@.children()[i as int] == children@[i as int]@);
            if children[i].is_node() && RecordExprField::can_cast(children[i].kind()) {
                proof {
                    tree::last_is(self@.children(), children.len() as int, wanted, i as int);
                    tree::path_step(self@.tree, self@.path, i as int);
                }
                return match parent.child(i) {
                    NodeOrToken::Node(node) => RecordExprField::cast(node),
                    NodeOrToken::Token(_) => None,
                };
            }
        }
        proof {
            if children.len() > 0 {
                tree::last_is(self@.children(), children.len() as int, wanted, -1);
            }
        }
        None
    }
}

impl Path {
    /// What qualifies the path.
    pub fn qualifier(&self) -> (r: Option<Path>)
        ensures
            place_of(r) == child_of::<Path>(self@),
            r matches Some(path) ==> path.marks() == self.marks(),
    {
        child(self.syntax())
    }

    pub fn segment(&self) -> (r: Option<PathSegment>)
        ensures
            place_of(r) == child_of::<PathSegment>(self@),
    {
        child(self.syntax())
    }

    /// The path that this one qualifies.
    pub open spec fn above(place: Place) -> Option<Place> {
        if !place.is_root() && place.parent().kind() == SyntaxKind::PATH {
            Some(place.parent())
        } else {
            None
        }
    }

    /// The path that this one qualifies.
    pub fn parent_path(&self) -> (r: Option<Path>)
        ensures
            place_of(r) == Self::above(self@),
            r matches Some(path) ==> path.marks() == self.marks(),
            self@.is_node(),
    {
        match self.syntax().parent() {
            Some(node) => Path::cast(node),
            None => None,
        }
    }

    /// The first segment: that of the innermost qualifier.
    pub open spec fn first_segment_of(tree: Tree) -> Option<Tree>
        decreases tree,
    {
        match tree {
            Tree::Node(_, children) => {
                let i = tree::first(children, 0, nodes_of::<Path>());
                let j = tree::first(children, 0, nodes_of::<PathSegment>());
                if 0 <= i < children.len() {
                    Self::first_segment_of(children[i])
                } else if 0 <= j < children.len() {
                    Some(children[j])
                } else {
                    None
                }
            },
            Tree::Token(_, _) => None,
        }
    }

    /// The first segment: that of the innermost qualifier.
    pub fn first_segment(&self) -> (r: Option<PathSegment>)
        ensures
            r is Some <==> Self::first_segment_of(self@.here()) is Some,
            r matches Some(segment) ==> Some(segment@.here()) == Self::first_segment_of(
                self@.here(),
            ),
    {
        let mut path = self.clone();
        loop
            invariant
                path@.is_node(),
                Self::first_segment_of(path@.here()) == Self::first_segment_of(self@.here()),
            decreases path@.here(),
        {
            let ghost place = path@;
            let ghost i = tree::first(place.children(), 0, nodes_of::<Path>());
            let ghost j = tree::first(place.children(), 0, nodes_of::<PathSegment>());
            proof {
                tree::first_bounds(place.children(), 0, nodes_of::<Path>());
                tree::first_bounds(place.children(), 0, nodes_of::<PathSegment>());
                tree::path_step(place.tree, place.path, i);
                tree::path_step(place.tree, place.path, j);
            }
            match path.qualifier() {
                Some(qualifier) => {
                    assert(decreases_to!(place.here() => place.here()->Node_1));
                    assert(decreases_to!(place.here()->Node_1 => place.here()->Node_1[i]));
                    path = qualifier;
                },
                None => return path.segment(),
            }
        }
    }
}

/// What a segment of a path is.
#[derive(Debug, Clone, Copy, PartialEq, Eq, Structural)]
pub enum PathSegmentKind {
    /// A name that is no keyword.
    Name,
    /// `<T>` or `<T as Trait>`.
    Type,
    SelfKw,
    SuperKw,
    CrateKw,
}

impl PathSegment {
    pub fn generic_arg_list(&self) -> (r: Option<GenericArgList>)
        ensures
            place_of(r) == child_of::<GenericArgList>(self@),
    {
        child(self.syntax())
    }

    pub fn name_ref(&self) -> (r: Option<NameRef>)
        ensures
            place_of(r) == child_of::<NameRef>(self@),
    {
        child(self.syntax())
    }

    /// What a segment is, by its name where it has one, by its first child where not.
    pub open spec fn kind_of(segment: Tree) -> Option<PathSegmentKind> {
        let i = tree::first(segment.children(), 0, nodes_of::<NameRef>());
        if 0 <= i < segment.children().len() {
            let leaf = segment.children()[i].leaves()[0];
            Some(
                if leaf is Node {
                    PathSegmentKind::Name
                } else {
                    match leaf.kind() {
                        SyntaxKind::SELF_KW => PathSegmentKind::SelfKw,
                        SyntaxKind::SUPER_KW => PathSegmentKind::SuperKw,
                        SyntaxKind::CRATE_KW => PathSegmentKind::CrateKw,
                        _ => PathSegmentKind::Name,
                    }
                },
            )
        } else if segment.children().len() == 0 {
            None
        } else {
            match segment.children()[0].kind() {
                SyntaxKind::SELF_KW => Some(PathSegmentKind::SelfKw),
                SyntaxKind::SUPER_KW => Some(PathSegmentKind::SuperKw),
                SyntaxKind::CRATE_KW => Some(PathSegmentKind::CrateKw),
                SyntaxKind::L_ANGLE => Some(PathSegmentKind::Type),
                _ => None,
            }
        }
    }

    pub fn kind(&self) -> (r: Option<PathSegmentKind>)
        ensures
            r == Self::kind_of(self@.here()),
            self@.is_node(),
    {
        let ghost place = self@;
        let ghost i = tree::first(place.children(), 0, nodes_of::<NameRef>());
        let children = self.syntax().children();
        proof {
            tree::first_bounds(place.children(), 0, nodes_of::<NameRef>());
            tree::path_step(place.tree, place.path, i);
        }
        match self.name_ref() {
            Some(name) => {
                let first = name.syntax().first_token();
                proof {
                    crate::indent::first_token_leaves(name@);
                    if let Some(token) = name@.first_token() {
                        assert(token.leaves_to().last() == token.here().leaves()[0]);
                        assert(token.here().leaves()[0] == token.here());
                    }
                    assert(name@.leaves_to().last() == name@.here().leaves()[0]);
                }
                match first {
                    Some(token) => match token.kind() {
                        SyntaxKind::SELF_KW => Some(PathSegmentKind::SelfKw),
                        SyntaxKind::SUPER_KW => Some(PathSegmentKind::SuperKw),
                        SyntaxKind::CRATE_KW => Some(PathSegmentKind::CrateKw),
                        _ => Some(PathSegmentKind::Name),
                    },
                    None => Some(PathSegmentKind::Name),
                }
            },
            None => {
                if children.len() == 0 {
                    return None;
                }
                assert(place.children()[0] == children@[0]@);
                match children[0].kind() {
                    SyntaxKind::SELF_KW => Some(PathSegmentKind::SelfKw),
                    SyntaxKind::SUPER_KW => Some(PathSegmentKind::SuperKw),
                    SyntaxKind::CRATE_KW => Some(PathSegmentKind::CrateKw),
                    SyntaxKind::L_ANGLE => Some(PathSegmentKind::Type),
                    _ => None,
                }
            },
        }
    }
}

impl Use {
    pub fn use_tree(&self) -> (r: Option<UseTree>)
        ensures
            place_of(r) == child_of::<UseTree>(self@),
    {
        child(self.syntax())
    }
}

impl UseTree {
    pub fn path(&self) -> (r: Option<Path>)
        ensures
            place_of(r) == child_of::<Path>(self@),
            r matches Some(path) ==> path.marks() == self.marks(),
    {
        child(self.syntax())
    }

    pub fn use_tree_list(&self) -> (r: Option<UseTreeList>)
        ensures
            place_of(r) == child_of::<UseTreeList>(self@),
    {
        child(self.syntax())
    }

    pub fn rename(&self) -> (r: Option<Rename>)
        ensures
            place_of(r) == child_of::<Rename>(self@),
    {
        child(self.syntax())
    }

    pub fn star_token(&self) -> (r: Option<SyntaxToken>)
        ensures
            place_of(r) == token_of(self@, SyntaxKind::STAR),
    {
        token(self.syntax(), SyntaxKind::STAR)
    }
}

impl MatchArm {
    pub fn pat(&self) -> (r: Option<Pat>)
        ensures
            place_of(r) == child_of::<Pat>(self@),
    {
        child(self.syntax())
    }
}

impl Module {
    pub fn item_list(&self) -> (r: Option<ItemList>)
        ensures
            place_of(r) == child_of::<ItemList>(self@),
            r matches Some(items) ==> items@.is_node() && ItemList::accepts(items@.kind()),
    {
        child(self.syntax())
    }
}

impl ItemList {
    pub fn l_curly_token(&self) -> (r: Option<SyntaxToken>)
        ensures
            place_of(r) == token_of(self@, SyntaxKind::L_CURLY),
    {
        token(self.syntax(), SyntaxKind::L_CURLY)
    }
}

/// Which side of an attribute it belongs to.
#[derive(Debug, Clone, Copy, PartialEq, Eq, Structural)]
pub enum AttrKind {
    /// `#![..]`: of what it stands in.
    Inner,
    /// `#[..]`: of what follows it.
    Outer,
}

impl Attr {
    /// An attribute is inner where its first token is `#` and `!` follows it.
    pub open spec fn is_inner(attr: Place) -> bool {
        match attr.first_token() {
            Some(first) => first.kind() == SyntaxKind::POUND && match first.next_token() {
                Some(second) => second.kind() == SyntaxKind::BANG,
                None => false,
            },
            None => false,
        }
    }

    pub fn kind(&self) -> (r: AttrKind)
        ensures
            r is Inner <==> Self::is_inner(self@),
    {
        match self.syntax().first_token() {
            Some(first) => match first.next_token() {
                Some(second) => if first.kind() == SyntaxKind::POUND && second.kind()
                    == SyntaxKind::BANG {
                    AttrKind::Inner
                } else {
                    AttrKind::Outer
                },
                None => AttrKind::Outer,
            },
            None => AttrKind::Outer,
        }
    }
}

} // verus!
