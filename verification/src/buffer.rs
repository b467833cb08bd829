//! Short lists of elements that are on their way into a tree, kept in an [`ArrayVec`].
use arrayvec::ArrayVec;
use vstd::prelude::*;

use crate::syntax_node::SyntaxElement;

verus! {

/// `arrayvec::ArrayVec`: a list of at most `CAP` elements.
#[verifier::external_type_specification]
#[verifier::external_body]
#[verifier::reject_recursive_types(T)]
pub struct ExArrayVec<T, const CAP: usize>(ArrayVec<T, CAP>);

/// What a list holds, first element first.
pub uninterp spec fn held(list: ArrayVec<SyntaxElement, 4>) -> Seq<SyntaxElement>;

/// `ArrayVec::new`: the list is empty.
#[verifier::external_body]
pub(crate) fn new() -> (r: ArrayVec<SyntaxElement, 4>)
    ensures
        held(r) == Seq::<SyntaxElement>::empty(),
{
    ArrayVec::new()
}

/// `ArrayVec::push`: the element comes last. A full list has no room for it.
#[verifier::external_body]
pub(crate) fn push(list: &mut ArrayVec<SyntaxElement, 4>, element: SyntaxElement)
    requires
        held(*old(list)).len() < 4,
    ensures
        held(*final(list)) == held(*old(list)).push(element),
{
    list.push(element)
}

/// `ArrayVec::insert`: the element gets the number `index`, and those from there on follow it. A
/// full list has no room for it.
#[verifier::external_body]
pub(crate) fn insert(list: &mut ArrayVec<SyntaxElement, 4>, index: usize, element: SyntaxElement)
    requires
        held(*old(list)).len() < 4,
        index <= held(*old(list)).len(),
    ensures
        held(*final(list)) == held(*old(list)).insert(index as int, element),
{
    list.insert(index, element)
}

/// `ArrayVec::pop`: the last element leaves the list, where there is one.
#[verifier::external_body]
pub(crate) fn pop(list: &mut ArrayVec<SyntaxElement, 4>) -> (r: Option<SyntaxElement>)
    ensures
        held(*old(list)).len() == 0 ==> r is None && held(*final(list)) == held(*old(list)),
        held(*old(list)).len() > 0 ==> r == Some(held(*old(list)).last()) && held(*final(list))
            == held(*old(list)).drop_last(),
{
    list.pop()
}

/// `ArrayVec::into_iter`: the elements of the list, in order.
#[verifier::external_body]
pub(crate) fn into_vec(list: ArrayVec<SyntaxElement, 4>) -> (r: Vec<SyntaxElement>)
    ensures
        r@ == held(list),
{
    list.into_iter().collect()
}

} // verus!
