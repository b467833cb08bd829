//! Edits of Rust syntax trees, and of the imports in them, with contracts that say which tree comes
//! out.
//!
//! Trees are values: an edit gives a new tree, and a node is a place in a tree. [`tree`] and
//! [`syntax_node`] hold the trees and the places, [`stamp`] what tells nodes apart that look the
//! same, [`ast`] the nodes by what they are, [`algo`],
//! [`ted`] and [`make`] what edits are made of. The edits themselves are in [`edit`], [`indent`]
//! and [`imports`], and what holds of them in [`edit_laws`], [`indent_laws`] and [`imports_laws`].
//! What they do to the children of a node is told by the kinds of these: for the parts of
//! expressions and paths in [`part_laws`] and [`prefix_laws`], for fields, arms and attributes in
//! [`field_laws`], [`arm_laws`] and [`item_laws`], for lines in [`line_laws`], and for imports in
//! [`group_laws`], [`placing_laws`] and [`spacing_laws`].
//! [`green`] goes to the trees of `rowan` and back.
pub mod algo;
pub mod arm_laws;
pub mod ast;
pub mod buffer;
pub mod edit;
pub mod edit_laws;
pub mod field_laws;
pub mod green;
pub mod group_laws;
pub mod imports;
pub mod imports_laws;
pub mod indent;
pub mod indent_laws;
pub mod item_laws;
pub mod line_laws;
pub mod make;
pub mod part_laws;
pub mod placing_laws;
pub mod prefix_laws;
pub mod spacing_laws;
pub mod stamp;
pub mod syntax_kind;
pub mod syntax_node;
pub mod ted;
pub mod text;
pub mod tree;
