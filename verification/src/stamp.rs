//! What tells a node from another that looks the same.
use std::rc::Rc;
use vstd::prelude::*;

verus! {

/// `Rc::as_ptr`: where the allocation that `holder` points to stands in memory. No two allocations
/// that live at the same time stand at the same place. That is a matter of the machine, and nothing
/// is claimed of the number.
#[verifier::external_body]
fn address(holder: &Rc<u8>) -> (r: usize) {
    Rc::as_ptr(holder) as usize
}

/// `Rc::clone`: another pointer to what `shared` points to.
#[verifier::external_body]
pub(crate) fn share<T>(shared: &Rc<T>) -> (r: Rc<T>)
    ensures
        r == *shared,
{
    Rc::clone(shared)
}

/// The stamp of a node. A node that is built gets a new one, which its copies keep. The allocation
/// that the number is taken from lives as long as any of them.
#[derive(Debug)]
pub struct Stamp {
    number: usize,
    holder: Rc<u8>,
}

impl Stamp {
    pub closed spec fn number(self) -> usize {
        self.number
    }

    /// A stamp that no other node has.
    pub fn new() -> Stamp {
        let holder = Rc::new(0u8);
        let number = address(&holder);
        Stamp { number, holder }
    }

    /// Whether two stamps are the same one.
    pub fn same(&self, other: &Stamp) -> (r: bool)
        ensures
            r == (self.number() == other.number()),
    {
        self.number == other.number
    }
}

impl Clone for Stamp {
    fn clone(&self) -> (r: Self)
        ensures
            r.number() == self.number(),
    {
        Stamp { number: self.number, holder: share(&self.holder) }
    }
}

/// The stamps of the nodes of a tree.
pub enum Marks {
    Node(usize, Seq<Marks>),
    Token,
}

impl Marks {
    /// The stamp of the node itself.
    pub open spec fn number(self) -> usize {
        self->Node_0
    }

    /// The marks of the children.
    pub open spec fn children(self) -> Seq<Marks> {
        match self {
            Marks::Node(_, children) => children,
            Marks::Token => Seq::empty(),
        }
    }

    /// The marks of the part that `path` leads to.
    pub open spec fn at(self, path: Seq<int>) -> Marks
        decreases path.len(),
    {
        if path.len() == 0 {
            self
        } else {
            self.children()[path[0]].at(path.drop_first())
        }
    }
}

} // verus!
