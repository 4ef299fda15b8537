use vstd::prelude::*;
use crate::borrow_state::BorrowState;
use crate::tangled::Tangled;

verus! {

/// A value borrowed out of a `Tangled`, with the borrow state it was lent
/// under.
pub struct RefHandle<'parent, 'value, T> where 'parent: 'value {
    parent: &'parent Tangled<T>,
    borrow_state: BorrowState,
    value: &'value T,
}

impl<'parent, 'value, T> RefHandle<'parent, 'value, T> {
    /// The vector the value came from.
    pub closed spec fn parent(&self) -> &'parent Tangled<T> {
        self.parent
    }

    /// The state the value was lent under.
    pub closed spec fn borrow_state(&self) -> BorrowState {
        self.borrow_state
    }

    /// The borrowed value.
    pub closed spec fn value(&self) -> &'value T {
        self.value
    }

    /// Bundles a borrowed value with its vector and borrow state.
    pub fn new(parent: &'parent Tangled<T>, borrow_state: BorrowState, value: &'value T) -> (h:
        Self)
        ensures
            h.parent() == parent,
            h.borrow_state() == borrow_state,
            h.value() == value,
    {
        RefHandle { parent, borrow_state, value }
    }
}

} // verus!
