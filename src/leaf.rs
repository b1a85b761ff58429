use vstd::prelude::*;

verus! {

/// A complete, witnessed leaf of a tree.
pub struct Leaf<Item>(pub Item);

impl<Item> Leaf<Item> {
    /// Create a new complete leaf from the item stored in the tree.
    pub fn new(item: Item) -> (r: Self)
        ensures
            r.0 == item,
    {
        Self(item)
    }

    /// The item the leaf holds.
    pub fn item(&self) -> (r: &Item)
        ensures
            *r == self.0,
    {
        &self.0
    }
}

} // verus!
