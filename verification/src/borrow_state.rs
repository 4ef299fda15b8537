use vstd::prelude::*;

verus! {

/// How a chunk is currently lent out.
#[derive(Debug, Clone, Copy, PartialEq, Eq, Structural)]
pub enum BorrowState {
    Exclusive,
    Shared(usize),
    Dropped,
}

} // verus!
